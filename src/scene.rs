//! The scene description: a text of constructive solid geometry with one
//! sphere for each particle.
use vstd::prelude::*;
use crate::vector::{abs, Vec3, MAX_RADIUS, SCALE};
use crate::force::{valid_particles, Particle, MAX_WEIGHT, WEIGHT_UNIT};
use crate::particles::ParticleSet;

verus! {

/// The bytes of `union() {` and a line break.
pub open spec fn union_open() -> Seq<u8> {
    seq![117u8, 110u8, 105u8, 111u8, 110u8, 40u8, 41u8, 32u8, 123u8, 10u8]
}

/// The bytes of `difference() { union() {` and a line break.
pub open spec fn difference_open() -> Seq<u8> {
    seq![100u8, 105u8, 102u8, 102u8, 101u8, 114u8, 101u8, 110u8, 99u8, 101u8, 40u8, 41u8, 32u8, 123u8, 32u8, 117u8, 110u8, 105u8, 111u8, 110u8, 40u8, 41u8, 32u8, 123u8, 10u8]
}

/// The bytes of `}` and a line break.
pub open spec fn block_close() -> Seq<u8> {
    seq![125u8, 10u8]
}

/// The bytes of `}; union() {` and a line break.
pub open spec fn shell_separator() -> Seq<u8> {
    seq![125u8, 59u8, 32u8, 117u8, 110u8, 105u8, 111u8, 110u8, 40u8, 41u8, 32u8, 123u8, 10u8]
}

/// The bytes of `}; };` and a line break.
pub open spec fn shell_close() -> Seq<u8> {
    seq![125u8, 59u8, 32u8, 125u8, 59u8, 10u8]
}

/// The bytes of `translate([`.
pub open spec fn translate_open() -> Seq<u8> {
    seq![116u8, 114u8, 97u8, 110u8, 115u8, 108u8, 97u8, 116u8, 101u8, 40u8, 91u8]
}

/// The bytes of `,`.
pub open spec fn comma() -> Seq<u8> {
    seq![44u8]
}

/// The bytes of `]) { sphere(`.
pub open spec fn sphere_open() -> Seq<u8> {
    seq![93u8, 41u8, 32u8, 123u8, 32u8, 115u8, 112u8, 104u8, 101u8, 114u8, 101u8, 40u8]
}

/// The bytes of `, $fn=`.
pub open spec fn resolution_open() -> Seq<u8> {
    seq![44u8, 32u8, 36u8, 102u8, 110u8, 61u8]
}

/// The bytes of `); };` and a line break.
pub open spec fn statement_close() -> Seq<u8> {
    seq![41u8, 59u8, 32u8, 125u8, 59u8, 10u8]
}

fn put_union_open(out: &mut Vec<u8>)
    ensures
        final(out)@ == old(out)@ + union_open(),
{
    out.push(117u8);
    out.push(110u8);
    out.push(105u8);
    out.push(111u8);
    out.push(110u8);
    out.push(40u8);
    out.push(41u8);
    out.push(32u8);
    out.push(123u8);
    out.push(10u8);
    assert(out@ =~= old(out)@ + union_open());
}

fn put_difference_open(out: &mut Vec<u8>)
    ensures
        final(out)@ == old(out)@ + difference_open(),
{
    out.push(100u8);
    out.push(105u8);
    out.push(102u8);
    out.push(102u8);
    out.push(101u8);
    out.push(114u8);
    out.push(101u8);
    out.push(110u8);
    out.push(99u8);
    out.push(101u8);
    out.push(40u8);
    out.push(41u8);
    out.push(32u8);
    out.push(123u8);
    out.push(32u8);
    out.push(117u8);
    out.push(110u8);
    out.push(105u8);
    out.push(111u8);
    out.push(110u8);
    out.push(40u8);
    out.push(41u8);
    out.push(32u8);
    out.push(123u8);
    out.push(10u8);
    assert(out@ =~= old(out)@ + difference_open());
}

fn put_block_close(out: &mut Vec<u8>)
    ensures
        final(out)@ == old(out)@ + block_close(),
{
    out.push(125u8);
    out.push(10u8);
    assert(out@ =~= old(out)@ + block_close());
}

fn put_shell_separator(out: &mut Vec<u8>)
    ensures
        final(out)@ == old(out)@ + shell_separator(),
{
    out.push(125u8);
    out.push(59u8);
    out.push(32u8);
    out.push(117u8);
    out.push(110u8);
    out.push(105u8);
    out.push(111u8);
    out.push(110u8);
    out.push(40u8);
    out.push(41u8);
    out.push(32u8);
    out.push(123u8);
    out.push(10u8);
    assert(out@ =~= old(out)@ + shell_separator());
}

fn put_shell_close(out: &mut Vec<u8>)
    ensures
        final(out)@ == old(out)@ + shell_close(),
{
    out.push(125u8);
    out.push(59u8);
    out.push(32u8);
    out.push(125u8);
    out.push(59u8);
    out.push(10u8);
    assert(out@ =~= old(out)@ + shell_close());
}

fn put_translate_open(out: &mut Vec<u8>)
    ensures
        final(out)@ == old(out)@ + translate_open(),
{
    out.push(116u8);
    out.push(114u8);
    out.push(97u8);
    out.push(110u8);
    out.push(115u8);
    out.push(108u8);
    out.push(97u8);
    out.push(116u8);
    out.push(101u8);
    out.push(40u8);
    out.push(91u8);
    assert(out@ =~= old(out)@ + translate_open());
}

fn put_comma(out: &mut Vec<u8>)
    ensures
        final(out)@ == old(out)@ + comma(),
{
    out.push(44u8);
    assert(out@ =~= old(out)@ + comma());
}

fn put_sphere_open(out: &mut Vec<u8>)
    ensures
        final(out)@ == old(out)@ + sphere_open(),
{
    out.push(93u8);
    out.push(41u8);
    out.push(32u8);
    out.push(123u8);
    out.push(32u8);
    out.push(115u8);
    out.push(112u8);
    out.push(104u8);
    out.push(101u8);
    out.push(114u8);
    out.push(101u8);
    out.push(40u8);
    assert(out@ =~= old(out)@ + sphere_open());
}

fn put_resolution_open(out: &mut Vec<u8>)
    ensures
        final(out)@ == old(out)@ + resolution_open(),
{
    out.push(44u8);
    out.push(32u8);
    out.push(36u8);
    out.push(102u8);
    out.push(110u8);
    out.push(61u8);
    assert(out@ =~= old(out)@ + resolution_open());
}

fn put_statement_close(out: &mut Vec<u8>)
    ensures
        final(out)@ == old(out)@ + statement_close(),
{
    out.push(41u8);
    out.push(59u8);
    out.push(32u8);
    out.push(125u8);
    out.push(59u8);
    out.push(10u8);
    assert(out@ =~= old(out)@ + statement_close());
}

/// The ASCII digit for `d < 10`.
pub open spec fn digit(d: int) -> u8 {
    (48 + d) as u8
}

/// The decimal digits of `n`, without leading zeros.
pub open spec fn decimal(n: nat) -> Seq<u8>
    decreases n,
{
    if n < 10 {
        seq![digit(n as int)]
    } else {
        decimal(n / 10) + seq![digit((n % 10) as int)]
    }
}

/// Decimal places of a written length: `10^SCALE_DIGITS == SCALE`.
pub const SCALE_DIGITS: u64 = 7;

/// The last `k` decimal digits of `f`, zero-padded.
pub open spec fn padded(f: nat, k: nat) -> Seq<u8>
    decreases k,
{
    if k == 0 {
        Seq::empty()
    } else {
        padded(f / 10, (k - 1) as nat) + seq![digit((f % 10) as int)]
    }
}

/// A length of `v` units written in scene units with `SCALE_DIGITS` decimals.
pub open spec fn fixed_text(v: int) -> Seq<u8> {
    let sign = if v < 0 { seq![45u8] } else { Seq::<u8>::empty() };
    sign + decimal((abs(v) / SCALE as int) as nat) + seq![46u8] + padded((abs(v) % SCALE as int) as nat, SCALE_DIGITS as nat)
}

fn put_decimal(out: &mut Vec<u8>, n: u64)
    ensures
        final(out)@ == old(out)@ + decimal(n as nat),
    decreases n,
{
    if n >= 10 {
        put_decimal(out, n / 10);
    }
    out.push(48u8 + (n % 10) as u8);
    assert(out@ =~= old(out)@ + decimal(n as nat));
}

fn put_padded(out: &mut Vec<u8>, f: u64, k: u64)
    ensures
        final(out)@ == old(out)@ + padded(f as nat, k as nat),
    decreases k,
{
    if k > 0 {
        put_padded(out, f / 10, k - 1);
        out.push(48u8 + (f % 10) as u8);
    }
    assert(out@ =~= old(out)@ + padded(f as nat, k as nat));
}

fn put_fixed(out: &mut Vec<u8>, v: i64)
    ensures
        final(out)@ == old(out)@ + fixed_text(v as int),
{
    if v < 0 {
        out.push(45u8);
    }
    let m: u64 = if v < 0 { (-(v as i128)) as u64 } else { v as u64 };
    put_decimal(out, m / SCALE);
    out.push(46u8);
    put_padded(out, m % SCALE, SCALE_DIGITS);
    assert(out@ =~= old(out)@ + fixed_text(v as int));
}

pub open spec fn is_cbrt_floor(n: int, c: int) -> bool {
    0 <= c && c * c * c <= n && n < (c + 1) * (c + 1) * (c + 1)
}

/// The integer cube root, rounded down.
pub open spec fn cbrt_floor(n: int) -> int {
    choose|c: int| is_cbrt_floor(n, c)
}

proof fn lemma_cube_mono(a: int, b: int)
    requires
        0 <= a <= b,
    ensures
        a * a * a <= b * b * b,
{
    assert(a * a * a <= b * b * b) by (nonlinear_arith)
        requires
            0 <= a <= b,
    ;
}

proof fn lemma_cbrt_floor_is(n: int, c: int)
    requires
        is_cbrt_floor(n, c),
    ensures
        cbrt_floor(n) == c,
{
    let d = cbrt_floor(n);
    assert(is_cbrt_floor(n, d));
    if d < c {
        lemma_cube_mono(d + 1, c);
    } else if c < d {
        lemma_cube_mono(c + 1, d);
    }
}

/// The integer cube root of `n < 2^45`, rounded down.
pub fn icbrt(n: u64) -> (c: u64)
    requires
        n < 0x2000_0000_0000,
    ensures
        c == cbrt_floor(n as int),
        c <= 0x8000,
{
    let mut lo: u64 = 0;
    let mut hi: u64 = 0x8000;
    assert(hi * hi * hi == 0x2000_0000_0000u64) by (nonlinear_arith)
        requires
            hi == 0x8000u64,
    ;
    while hi - lo > 1
        invariant
            lo < hi <= 0x8000,
            lo * lo * lo <= n,
            n < hi * hi * hi,
        decreases hi - lo,
    {
        let mid: u64 = lo + (hi - lo) / 2;
        proof {
            lemma_cube_mono(mid as int, 0x8000);
        }
        assert(mid * mid <= 0x4000_0000 && mid * mid * mid <= 0x8000_0000_0000) by (
        nonlinear_arith)
            requires
                mid <= 0x8000,
        ;
        if mid * mid * mid <= n {
            lo = mid;
        } else {
            hi = mid;
        }
    }
    proof {
        lemma_cbrt_floor_is(n as int, lo as int);
    }
    lo
}

/// Whether the scene is one solid union or a hollow shell.
#[derive(Clone, Copy, Debug, PartialEq, Eq, Structural)]
pub enum SceneMode {
    /// One union of all spheres.
    Solid,
    /// The union of all spheres minus the union of the same spheres shrunk
    /// by the shell offset.
    Shell,
}

/// How spheres are drawn: radii in units of `1 / SCALE`, and the
/// tessellation resolution.
#[derive(Clone, Copy, Debug, PartialEq, Eq, Structural)]
pub struct SceneStyle {
    pub base_radius: u64,
    pub shell_offset: u64,
    pub resolution: u64,
}

impl SceneStyle {
    pub open spec fn wf(self) -> bool {
        self.base_radius <= MAX_RADIUS
    }
}

impl SceneStyle {
    /// Whether the style is within the allowed ranges.
    pub fn is_valid(&self) -> (r: bool)
        ensures
            r == self.wf(),
    {
        self.base_radius <= MAX_RADIUS
    }

    /// Spheres of radius 0.9 at unit weight, shells 0.2 thick, 30 facets.
    pub fn lattice_preset() -> (r: SceneStyle)
        ensures
            r.wf(),
            r == (SceneStyle { base_radius: 9_000_000, shell_offset: 2_000_000, resolution: 30 }),
    {
        SceneStyle { base_radius: 9_000_000, shell_offset: 2_000_000, resolution: 30 }
    }
}

/// The radius of a sphere of weight `w` thousandths: `base * (w / 1000)^(1/3)`.
pub open spec fn sphere_radius(base: int, w: int) -> int {
    (base * cbrt_floor(w * WEIGHT_UNIT * WEIGHT_UNIT)) / WEIGHT_UNIT as int
}

/// The radius shrunk by `offset`, never below zero.
pub open spec fn shrunk(r: int, offset: int) -> int {
    if r > offset { r - offset } else { 0 }
}

/// The radius of the sphere drawn for `p` in the outer or the inner union.
pub open spec fn drawn_radius(p: Particle, style: SceneStyle, inner: bool) -> int {
    let r = sphere_radius(style.base_radius as int, p.weight as int);
    if inner { shrunk(r, style.shell_offset as int) } else { r }
}

/// `translate([x,y,z]) { sphere(r, $fn=N); };` for one sphere.
pub open spec fn statement(pos: Vec3, radius: int, resolution: int) -> Seq<u8> {
    translate_open() + fixed_text(pos.x as int) + comma() + fixed_text(pos.y as int) + comma()
        + fixed_text(pos.z as int) + sphere_open() + fixed_text(radius) + resolution_open()
        + decimal(resolution as nat) + statement_close()
}

/// The statements for particles `0 .. upto`, in index order.
pub open spec fn statements(ps: Seq<Particle>, upto: int, style: SceneStyle, inner: bool) -> Seq<u8>
    decreases upto,
{
    if upto <= 0 {
        Seq::empty()
    } else {
        statements(ps, upto - 1, style, inner) + statement(
            ps[upto - 1].position,
            drawn_radius(ps[upto - 1], style, inner),
            style.resolution as int,
        )
    }
}

/// The whole scene for the particles `ps`.
pub open spec fn scene(ps: Seq<Particle>, mode: SceneMode, style: SceneStyle) -> Seq<u8> {
    let n = ps.len() as int;
    match mode {
        SceneMode::Solid => union_open() + statements(ps, n, style, false) + block_close(),
        SceneMode::Shell => difference_open() + statements(ps, n, style, false)
            + shell_separator() + statements(ps, n, style, true) + shell_close(),
    }
}

fn radius_of(p: Particle, style: &SceneStyle, inner: bool) -> (r: u64)
    requires
        p.wf(),
        style.wf(),
    ensures
        r == drawn_radius(p, *style, inner),
        r <= 0x8000_0000_0000,
{
    assert(p.weight * WEIGHT_UNIT * WEIGHT_UNIT < 0x2000_0000_0000) by (nonlinear_arith)
        requires
            p.weight <= MAX_WEIGHT,
    ;
    let c = icbrt(p.weight * WEIGHT_UNIT * WEIGHT_UNIT);
    assert(style.base_radius * c <= 0x8000_0000_0000) by (nonlinear_arith)
        requires
            style.base_radius <= MAX_RADIUS,
            c <= 0x8000,
    ;
    let r = style.base_radius * c / WEIGHT_UNIT;
    if inner {
        if r > style.shell_offset {
            r - style.shell_offset
        } else {
            0
        }
    } else {
        r
    }
}

fn put_statement(out: &mut Vec<u8>, pos: Vec3, r: u64, resolution: u64)
    requires
        r <= 0x8000_0000_0000,
    ensures
        final(out)@ == old(out)@ + statement(pos, r as int, resolution as int),
{
    let ghost s0 = out@;
    put_translate_open(out);
    put_fixed(out, pos.x);
    put_comma(out);
    put_fixed(out, pos.y);
    put_comma(out);
    let ghost s1 = out@;
    assert(s1 =~= s0 + translate_open() + fixed_text(pos.x as int) + comma() + fixed_text(
        pos.y as int,
    ) + comma());
    put_fixed(out, pos.z);
    put_sphere_open(out);
    put_fixed(out, r as i64);
    let ghost s2 = out@;
    assert(s2 =~= s1 + fixed_text(pos.z as int) + sphere_open() + fixed_text(r as int));
    put_resolution_open(out);
    put_decimal(out, resolution);
    put_statement_close(out);
    assert(out@ =~= s2 + resolution_open() + decimal(resolution as nat) + statement_close());
    assert(out@ =~= s0 + statement(pos, r as int, resolution as int));
}

fn put_statements(out: &mut Vec<u8>, ps: &Vec<Particle>, style: &SceneStyle, inner: bool)
    requires
        valid_particles(ps@),
        style.wf(),
    ensures
        final(out)@ == old(out)@ + statements(ps@, ps@.len() as int, *style, inner),
{
    let ghost start = out@;
    let mut i: usize = 0;
    while i < ps.len()
        invariant
            valid_particles(ps@),
            style.wf(),
            i <= ps.len(),
            out@ == start + statements(ps@, i as int, *style, inner),
        decreases ps.len() - i,
    {
        assert(ps@[i as int].wf());
        let p = ps[i];
        let r = radius_of(p, style, inner);
        put_statement(out, p.position, r, style.resolution);
        i = i + 1;
        assert(out@ =~= start + statements(ps@, i as int, *style, inner));
    }
}

impl ParticleSet {
    /// The scene description of the set.
    pub fn scene_text(&self, mode: SceneMode, style: &SceneStyle) -> (r: Vec<u8>)
        requires
            self.wf(),
            style.wf(),
        ensures
            r@ == scene(self@, mode, *style),
    {
        let ps = self.particles_ref();
        let mut out: Vec<u8> = Vec::new();
        match mode {
            SceneMode::Solid => {
                put_union_open(&mut out);
                put_statements(&mut out, ps, style, false);
                put_block_close(&mut out);
            },
            SceneMode::Shell => {
                put_difference_open(&mut out);
                put_statements(&mut out, ps, style, false);
                put_shell_separator(&mut out);
                put_statements(&mut out, ps, style, true);
                put_shell_close(&mut out);
            },
        }
        assert(out@ =~= scene(self@, mode, *style));
        out
    }
}

} // verus!
