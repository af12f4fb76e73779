use vstd::prelude::*;

verus! {

/// Offset added to world coordinates so that lattice arithmetic runs on
/// non-negative numbers (2^50, far beyond any reachable coordinate).
pub const COORD_OFFSET: i64 = 0x4_0000_0000_0000;

/// Largest world coordinate (in fine units) the sampler accepts (2^46).
pub const COORD_LIMIT: i64 = 0x4000_0000_0000;

/// Lattice values are 16-bit: in `[0, LATTICE_RANGE)`.
pub const LATTICE_RANGE: u64 = 0x10000;

/// Heights are clamped to `[-HEIGHT_LIMIT, HEIGHT_LIMIT - 1]` fixed-point units.
pub const HEIGHT_LIMIT: i64 = 32768;

/// Largest accepted first-octave amplitude and |height offset|.
pub const AMPLITUDE_LIMIT: i64 = 30000;

/// Largest accepted noise lattice spacing.
pub const SCALE_LIMIT: i64 = 65536;

/// Largest accepted octave count.
pub const OCTAVE_LIMIT: usize = 16;

/// Largest accepted |world origin offset|.
pub const ORIGIN_LIMIT: i64 = 1000000;

/// Immutable configuration of the heightfield: a deterministic, pure
/// function from world coordinates to a terrain height follows from it.
/// Heights are fixed-point integers (no unit is imposed by the library).
#[derive(Debug, Clone, Copy, PartialEq, Eq, Structural)]
pub struct HeightParams {
    /// Seed folded into every lattice hash.
    pub seed: u64,
    /// World-origin offset applied to the first coordinate.
    pub origin_x: i64,
    /// World-origin offset applied to the second coordinate.
    pub origin_y: i64,
    /// Lattice spacing of the first octave, in fine coordinate units.
    pub scale: i64,
    /// Number of noise octaves layered; spacing halves at each octave.
    pub octaves: usize,
    /// Height contribution of the first octave; later octaves halve it.
    pub amplitude: i64,
    /// Constant shift added to the summed noise.
    pub height_offset: i64,
    /// Lower clamp on the final height.
    pub sea_level: i64,
    /// Upper clamp on the final height.
    pub plateau_level: i64,
}

impl HeightParams {
    /// Bounds under which every sampling step fits comfortably in 64 bits.
    pub open spec fn wf(self) -> bool {
        &&& 1 <= self.scale <= SCALE_LIMIT
        &&& 1 <= self.octaves <= OCTAVE_LIMIT
        &&& 0 <= self.amplitude <= AMPLITUDE_LIMIT
        &&& -AMPLITUDE_LIMIT <= self.height_offset <= AMPLITUDE_LIMIT
        &&& -HEIGHT_LIMIT <= self.sea_level <= self.plateau_level < HEIGHT_LIMIT
        &&& -ORIGIN_LIMIT <= self.origin_x <= ORIGIN_LIMIT
        &&& -ORIGIN_LIMIT <= self.origin_y <= ORIGIN_LIMIT
    }
}

/// Relies on rand::random: draws a value from the thread-local generator;
/// nothing is promised of the result.
pub assume_specification<T>[ rand::random::<T> ]() -> (r: T)
    where
        rand::distributions::Standard: rand::distributions::Distribution<T>,
;

/// The world-origin offset pair derived from a non-zero origin seed.
pub open spec fn sp_origin(origin_seed: u64) -> (i64, i64) {
    if origin_seed == 0 {
        (0i64, 0i64)
    } else {
        (
            ((sp_mix(origin_seed, 1, 1, 2) & 0xfffffu64) as i64 - 0x80000) as i64,
            ((sp_mix(origin_seed, 2, 3, 4) & 0xfffffu64) as i64 - 0x80000) as i64,
        )
    }
}

impl HeightParams {
    /// Assemble a parameter bundle, rejecting out-of-range values.
    /// An `origin_seed` of zero leaves the world origin unshifted; any other
    /// value shifts it by a pair derived from the seed once, here, so that
    /// every later sample reuses the same origin.
    pub fn new(
        seed: u64,
        origin_seed: u64,
        scale: i64,
        octaves: usize,
        amplitude: i64,
        height_offset: i64,
        sea_level: i64,
        plateau_level: i64,
    ) -> (r: Option<HeightParams>)
        ensures
            r is Some <==> {
                &&& 1 <= scale <= SCALE_LIMIT
                &&& 1 <= octaves <= OCTAVE_LIMIT
                &&& 0 <= amplitude <= AMPLITUDE_LIMIT
                &&& -AMPLITUDE_LIMIT <= height_offset <= AMPLITUDE_LIMIT
                &&& -HEIGHT_LIMIT <= sea_level <= plateau_level < HEIGHT_LIMIT
            },
            r matches Some(p) ==> p == (HeightParams {
                seed,
                origin_x: sp_origin(origin_seed).0,
                origin_y: sp_origin(origin_seed).1,
                scale,
                octaves,
                amplitude,
                height_offset,
                sea_level,
                plateau_level,
            }),
            r matches Some(p) ==> p.wf(),
    {
        if !(1 <= scale && scale <= SCALE_LIMIT) {
            return None;
        }
        if !(1 <= octaves && octaves <= OCTAVE_LIMIT) {
            return None;
        }
        if !(0 <= amplitude && amplitude <= AMPLITUDE_LIMIT) {
            return None;
        }
        if !(-AMPLITUDE_LIMIT <= height_offset && height_offset <= AMPLITUDE_LIMIT) {
            return None;
        }
        if !(-HEIGHT_LIMIT <= sea_level && sea_level <= plateau_level && plateau_level
            < HEIGHT_LIMIT) {
            return None;
        }
        let (origin_x, origin_y) = if origin_seed == 0 {
            (0i64, 0i64)
        } else {
            let mx = mix(origin_seed, 1, 1, 2);
            let my = mix(origin_seed, 2, 3, 4);
            proof {
                assert(mx & 0xfffffu64 < 0x100000) by (bit_vector);
                assert(my & 0xfffffu64 < 0x100000) by (bit_vector);
            }
            (((mx & 0xfffffu64) as i64) - 0x80000, ((my & 0xfffffu64) as i64) - 0x80000)
        };
        Some(
            HeightParams {
                seed,
                origin_x,
                origin_y,
                scale,
                octaves,
                amplitude,
                height_offset,
                sea_level,
                plateau_level,
            },
        )
    }

    /// As `new`, but with the world origin randomized from a seed drawn
    /// once; equal results of the draw give equal parameter bundles.
    pub fn new_random(
        seed: u64,
        scale: i64,
        octaves: usize,
        amplitude: i64,
        height_offset: i64,
        sea_level: i64,
        plateau_level: i64,
    ) -> (r: Option<HeightParams>)
        ensures
            r matches Some(p) ==> p.wf(),
            r is Some <==> {
                &&& 1 <= scale <= SCALE_LIMIT
                &&& 1 <= octaves <= OCTAVE_LIMIT
                &&& 0 <= amplitude <= AMPLITUDE_LIMIT
                &&& -AMPLITUDE_LIMIT <= height_offset <= AMPLITUDE_LIMIT
                &&& -HEIGHT_LIMIT <= sea_level <= plateau_level < HEIGHT_LIMIT
            },
    {
        let origin_seed = rand::random::<u64>();
        HeightParams::new(
            seed,
            origin_seed,
            scale,
            octaves,
            amplitude,
            height_offset,
            sea_level,
            plateau_level,
        )
    }
}

/// One round of xor-shift bit mixing of the seed, octave and lattice cell.
pub open spec fn sp_mix(seed: u64, o: u64, cx: u64, cz: u64) -> u64 {
    let h0 = seed ^ 0x9e3779b97f4a7c15u64 ^ (o << 56u64);
    let h1 = h0 ^ cx ^ (cx << 13u64);
    let h2 = h1 ^ (h1 >> 7u64);
    let h3 = h2 ^ cz ^ (cz << 17u64);
    let h4 = h3 ^ (h3 >> 9u64);
    let h5 = h4 ^ (h4 << 25u64);
    h5 ^ (h5 >> 11u64)
}

/// Pseudo-random lattice value in `[0, LATTICE_RANGE)` for one cell corner.
pub open spec fn sp_lattice(seed: u64, o: u64, cx: u64, cz: u64) -> u64 {
    sp_mix(seed, o, cx, cz) & 0xffffu64
}

/// Lattice spacing of octave `o`: the base spacing halved `o` times, at least 1.
pub open spec fn sp_spacing(scale: i64, o: u64) -> u64 {
    let s = (scale as u64) >> o;
    if s == 0 {
        1u64
    } else {
        s
    }
}

/// Bilinear interpolation of the four lattice corners around `(xs, zs)`
/// at spacing `s`; lies in `[0, LATTICE_RANGE)` again.
pub open spec fn sp_interp(seed: u64, o: u64, s: u64, xs: u64, zs: u64) -> int {
    let si = s as int;
    let cx = xs as int / si;
    let fx = xs as int % si;
    let cz = zs as int / si;
    let fz = zs as int % si;
    let c00 = sp_lattice(seed, o, cx as u64, cz as u64) as int;
    let c10 = sp_lattice(seed, o, (cx + 1) as u64, cz as u64) as int;
    let c01 = sp_lattice(seed, o, cx as u64, (cz + 1) as u64) as int;
    let c11 = sp_lattice(seed, o, (cx + 1) as u64, (cz + 1) as u64) as int;
    let num = c00 * (si - fx) * (si - fz) + c10 * fx * (si - fz) + c01 * (si - fx) * fz + c11 * fx
        * fz;
    num / (si * si)
}

/// Sum of the first `k` octaves, each interpolated value scaled by the
/// octave's (halving) amplitude.
pub open spec fn sp_octsum(seed: u64, scale: i64, amplitude: i64, xs: u64, zs: u64, k: nat) -> int
    decreases k,
{
    if k == 0 {
        0
    } else {
        let o = (k - 1) as u64;
        let s = sp_spacing(scale, o);
        let v = sp_interp(seed, o, s, xs, zs);
        let amp = ((amplitude as u64) >> o) as int;
        sp_octsum(seed, scale, amplitude, xs, zs, (k - 1) as nat) + (v * amp) / (
        LATTICE_RANGE as int)
    }
}

/// Clamp `v` into `[lo, hi]`.
pub open spec fn sp_clamp(v: int, lo: int, hi: int) -> int {
    if v < lo {
        lo
    } else if v > hi {
        hi
    } else {
        v
    }
}

/// The shifted, non-negative sampling coordinate.
pub open spec fn sp_coord(origin: i64, c: i64) -> u64 {
    (c + origin + COORD_OFFSET) as u64
}

/// The height of the terrain at world point `(x, z)` (in fine units):
/// layered fractal noise, centered, shifted by the height offset, and
/// clamped to `[sea_level, plateau_level]`.
pub open spec fn spec_sample(p: HeightParams, x: i64, z: i64) -> int {
    let xs = sp_coord(p.origin_x, x);
    let zs = sp_coord(p.origin_y, z);
    let raw = sp_octsum(p.seed, p.scale, p.amplitude, xs, zs, p.octaves as nat) - p.amplitude
        + p.height_offset;
    sp_clamp(raw, p.sea_level as int, p.plateau_level as int)
}

/// One xor-shift mixing round (the executable twin of `sp_mix`).
fn mix(seed: u64, o: u64, cx: u64, cz: u64) -> (h: u64)
    requires
        o < 64,
    ensures
        h == sp_mix(seed, o, cx, cz),
{
    let h0 = seed ^ 0x9e3779b97f4a7c15u64 ^ (o << 56u64);
    let h1 = h0 ^ cx ^ (cx << 13u64);
    let h2 = h1 ^ (h1 >> 7u64);
    let h3 = h2 ^ cz ^ (cz << 17u64);
    let h4 = h3 ^ (h3 >> 9u64);
    let h5 = h4 ^ (h4 << 25u64);
    h5 ^ (h5 >> 11u64)
}

/// Lattice corner value in `[0, LATTICE_RANGE)`.
fn lattice(seed: u64, o: u64, cx: u64, cz: u64) -> (v: u64)
    requires
        o < 64,
    ensures
        v == sp_lattice(seed, o, cx, cz),
        v < LATTICE_RANGE,
{
    let h = mix(seed, o, cx, cz);
    let v = h & 0xffffu64;
    proof {
        assert(h & 0xffffu64 < 0x10000) by (bit_vector);
    }
    v
}

/// Deterministically sample the heightfield at world point `(x, z)`.
/// Pure: equal arguments always give the same (bit-identical) height.
pub fn sample(p: &HeightParams, x: i64, z: i64) -> (h: i64)
    requires
        p.wf(),
        -COORD_LIMIT <= x <= COORD_LIMIT,
        -COORD_LIMIT <= z <= COORD_LIMIT,
    ensures
        h == spec_sample(*p, x, z),
        p.sea_level <= h <= p.plateau_level,
{
    let xs: u64 = (x + p.origin_x + COORD_OFFSET) as u64;
    let zs: u64 = (z + p.origin_y + COORD_OFFSET) as u64;
    let mut acc: i64 = 0;
    let mut k: usize = 0;
    while k < p.octaves
        invariant
            p.wf(),
            xs == sp_coord(p.origin_x, x),
            zs == sp_coord(p.origin_y, z),
            xs < 0x8_0000_0000_0000,
            zs < 0x8_0000_0000_0000,
            0 <= k <= p.octaves,
            acc == sp_octsum(p.seed, p.scale, p.amplitude, xs, zs, k as nat),
            0 <= acc <= k * AMPLITUDE_LIMIT,
        decreases p.octaves - k,
    {
        let o = k as u64;
        let term = octave_value(p.seed, p.scale, p.amplitude, o, xs, zs);
        acc = acc + term;
        k = k + 1;
        proof {
            assert(acc == sp_octsum(p.seed, p.scale, p.amplitude, xs, zs, k as nat));
        }
    }
    let raw = acc - p.amplitude + p.height_offset;
    if raw < p.sea_level {
        p.sea_level
    } else if raw > p.plateau_level {
        p.plateau_level
    } else {
        raw
    }
}

/// Interpolated contribution of octave `o`, in `[0, amplitude >> o]`.
fn octave_value(seed: u64, scale: i64, amplitude: i64, o: u64, xs: u64, zs: u64) -> (c: i64)
    requires
        1 <= scale <= SCALE_LIMIT,
        0 <= amplitude <= AMPLITUDE_LIMIT,
        o < 16,
        xs < 0x8_0000_0000_0000,
        zs < 0x8_0000_0000_0000,
    ensures
        c == sp_octsum(seed, scale, amplitude, xs, zs, (o + 1) as nat) - sp_octsum(
            seed,
            scale,
            amplitude,
            xs,
            zs,
            o as nat,
        ),
        0 <= c <= AMPLITUDE_LIMIT,
{
    let su = (scale as u64) >> o;
    let s: u64 = if su == 0 {
        1
    } else {
        su
    };
    proof {
        assert((scale as u64) >> o <= (scale as u64)) by (bit_vector);
        assert(s == sp_spacing(scale, o));
    }
    let cx = xs / s;
    let fx = xs % s;
    let cz = zs / s;
    let fz = zs % s;
    proof {
        vstd::arithmetic::div_mod::lemma_div_nonincreasing(xs as int, s as int);
        vstd::arithmetic::div_mod::lemma_div_nonincreasing(zs as int, s as int);
    }
    let c00 = lattice(seed, o, cx, cz);
    let c10 = lattice(seed, o, cx + 1, cz);
    let c01 = lattice(seed, o, cx, cz + 1);
    let c11 = lattice(seed, o, cx + 1, cz + 1);
    let wx0 = s - fx;
    let wz0 = s - fz;
    proof {
        lemma_corner_product_bound(c00 as int, wx0 as int, wz0 as int, s as int);
        lemma_corner_product_bound(c10 as int, fx as int, wz0 as int, s as int);
        lemma_corner_product_bound(c01 as int, wx0 as int, fz as int, s as int);
        lemma_corner_product_bound(c11 as int, fx as int, fz as int, s as int);
    }
    let num = c00 * wx0 * wz0 + c10 * fx * wz0 + c01 * wx0 * fz + c11 * fx * fz;
    proof {
        assert(1 <= (s as int) * (s as int) <= 0x1_0000_0000) by (nonlinear_arith)
            requires
                1 <= s <= 0x10000,
        ;
    }
    let v = num / (s * s);
    proof {
        lemma_interp_bounds(
            c00 as int,
            c10 as int,
            c01 as int,
            c11 as int,
            fx as int,
            fz as int,
            s as int,
        );
        assert(v as int == sp_interp(seed, o, s, xs, zs));
    }
    let amp = (amplitude as u64) >> o;
    proof {
        assert((amplitude as u64) >> o <= (amplitude as u64)) by (bit_vector);
        lemma_octave_term_bound(v as int, amp as int);
    }
    let term = (v * amp) / LATTICE_RANGE;
    proof {
        assert(sp_octsum(seed, scale, amplitude, xs, zs, (o + 1) as nat) == sp_octsum(
            seed,
            scale,
            amplitude,
            xs,
            zs,
            o as nat,
        ) + (sp_interp(seed, o, s, xs, zs) * (((amplitude as u64) >> o) as int)) / (
        LATTICE_RANGE as int));
    }
    term as i64
}

/// Each corner term `c * wx * wz` is bounded by `c * s * s`, which fits
/// well inside 64 bits for the admitted parameter ranges.
proof fn lemma_corner_product_bound(c: int, wx: int, wz: int, s: int)
    requires
        0 <= c < 0x10000,
        0 <= wx <= s,
        0 <= wz <= s,
        1 <= s <= 0x10000,
    ensures
        0 <= c * wx <= 0xffff * 0x10000,
        0 <= c * wx * wz <= 0xffff * 0x10000 * 0x10000,
        c * wx * wz <= c * s * s,
{
    assert(0 <= c * wx && c * wx <= 0xffff * 0x10000 && 0 <= c * wx * wz && c * wx * wz <= c * s * s
        && c * s * s <= 0xffff * 0x10000 * 0x10000) by (nonlinear_arith)
        requires
            0 <= c < 0x10000,
            0 <= wx <= s,
            0 <= wz <= s,
            1 <= s <= 0x10000,
    ;
}

/// The four bilinear weights sum to `s * s`, so the weighted corner sum
/// divided by `s * s` stays within the lattice range.
proof fn lemma_interp_bounds(c00: int, c10: int, c01: int, c11: int, fx: int, fz: int, s: int)
    requires
        0 <= c00 < 0x10000,
        0 <= c10 < 0x10000,
        0 <= c01 < 0x10000,
        0 <= c11 < 0x10000,
        0 <= fx < s,
        0 <= fz < s,
        1 <= s <= 0x10000,
    ensures
        0 <= (c00 * (s - fx) * (s - fz) + c10 * fx * (s - fz) + c01 * (s - fx) * fz + c11 * fx * fz)
            / (s * s) < 0x10000,
{
    let num = c00 * (s - fx) * (s - fz) + c10 * fx * (s - fz) + c01 * (s - fx) * fz + c11 * fx * fz;
    assert((s - fx) * (s - fz) + fx * (s - fz) + (s - fx) * fz + fx * fz == s * s)
        by (nonlinear_arith);
    assert(0 <= c00 * (s - fx) * (s - fz) <= 0xffff * ((s - fx) * (s - fz))) by (nonlinear_arith)
        requires
            0 <= c00 < 0x10000,
            0 <= fx < s,
            0 <= fz < s,
    ;
    assert(0 <= c10 * fx * (s - fz) <= 0xffff * (fx * (s - fz))) by (nonlinear_arith)
        requires
            0 <= c10 < 0x10000,
            0 <= fx < s,
            0 <= fz < s,
    ;
    assert(0 <= c01 * (s - fx) * fz <= 0xffff * ((s - fx) * fz)) by (nonlinear_arith)
        requires
            0 <= c01 < 0x10000,
            0 <= fx < s,
            0 <= fz < s,
    ;
    assert(0 <= c11 * fx * fz <= 0xffff * (fx * fz)) by (nonlinear_arith)
        requires
            0 <= c11 < 0x10000,
            0 <= fx < s,
            0 <= fz < s,
    ;
    assert(0xffff * ((s - fx) * (s - fz)) + 0xffff * (fx * (s - fz)) + 0xffff * ((s - fx) * fz)
        + 0xffff * (fx * fz) == 0xffff * (s * s)) by (nonlinear_arith);
    assert(0 <= num && num <= 0xffff * (s * s));
    assert(s * s >= 1) by (nonlinear_arith)
        requires
            1 <= s,
    ;
    vstd::arithmetic::div_mod::lemma_div_is_ordered(num, 0xffff * (s * s), s * s);
    vstd::arithmetic::div_mod::lemma_div_by_multiple(0xffff, s * s);
    vstd::arithmetic::div_mod::lemma_div_pos_is_pos(num, s * s);
}

/// An interpolated value times an octave amplitude, divided by the lattice
/// range, stays within that amplitude.
proof fn lemma_octave_term_bound(v: int, amp: int)
    requires
        0 <= v < 0x10000,
        0 <= amp <= AMPLITUDE_LIMIT,
    ensures
        0 <= (v * amp) / 0x10000 <= amp,
        v * amp <= 0x10000 * AMPLITUDE_LIMIT,
{
    assert(0 <= v * amp && v * amp <= 0x10000 * amp && 0x10000 * amp <= 0x10000 * AMPLITUDE_LIMIT)
        by (nonlinear_arith)
        requires
            0 <= v < 0x10000,
            0 <= amp <= AMPLITUDE_LIMIT,
    ;
    vstd::arithmetic::div_mod::lemma_div_is_ordered(v * amp, 0x10000 * amp, 0x10000);
    vstd::arithmetic::div_mod::lemma_div_by_multiple(amp, 0x10000);
    vstd::arithmetic::div_mod::lemma_div_pos_is_pos(v * amp, 0x10000);
}

} // verus!
