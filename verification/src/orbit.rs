//! The orbit-camera controller: yaw/pitch rotation about a fixed focus
//! point with hard pitch clamping, and exponential zoom along the view ray.
//!
//! The zoom level is kept as an exact accumulated scroll total; the radial
//! distance is derived from it, so zooming by `s` and then by `-s` restores
//! the distance exactly.  The transform holds the camera position and the
//! unit forward vector toward the focus; the orientation is the look-at
//! frame spanned by that forward vector and the world-up reference.
use vstd::prelude::*;
use vstd::arithmetic::div_mod::{
    lemma_fundamental_div_mod, lemma_fundamental_div_mod_converse, lemma_mod_bound,
    lemma_small_mod,
};
use vstd::arithmetic::mul::lemma_mul_by_zero_is_zero;
use crate::fx::{
    clamp_i64, clamp_spec, div_trunc, div_trunc_i128, fx_mul, fx_mul_spec, isqrt, isqrt_spec,
    lemma_div_trunc_mag, lemma_div_trunc_err, lemma_div_trunc_exact, lemma_div_trunc_sign,
    lemma_isqrt_unique, mod_euclid, SCALE,
};
use crate::input::Vec2Fx;
use crate::trig::{cos_fx, sin_fx, cos_unit, sin_unit};

verus! {

/// A three-component fixed-point vector (world-space position or direction).
#[derive(Clone, Copy, PartialEq, Eq, Structural, Debug)]
pub struct Vec3Fx {
    pub x: i64,
    pub y: i64,
    pub z: i64,
}

/// The per-tick output: a world position and the unit forward vector that
/// points from the position toward the focus center.  Together with the
/// world-up reference these determine the look-at orientation.
#[derive(Clone, Copy, PartialEq, Eq, Structural, Debug)]
pub struct TransformFx {
    pub position: Vec3Fx,
    pub forward: Vec3Fx,
}

/// Lower pitch clamp (0.01 rad), keeping the camera off the vertical pole.
pub const PITCH_MIN: i64 = 100;

/// Upper pitch clamp (3.13 rad), just short of the opposite pole.
pub const PITCH_MAX: i64 = 31300;

/// One full turn (2 pi) on the grid; yaw is kept in `[0, TWO_PI_FX)`.
pub const TWO_PI_FX: i64 = 62832;

/// Smallest representable orbit distance: one grid step, keeping the
/// distance strictly positive.
pub const DIST_MIN: i64 = 1;

/// Largest orbit distance the controller tracks.
pub const DIST_MAX: i64 = 1_000_000_000_000;

/// Largest magnitude of a focus-center coordinate.
pub const CENTER_MAX: i64 = 1_000_000_000_000;

/// Largest magnitude of a transform position coordinate the zoom accepts.
pub const POS_MAX: i64 = 4_000_000_000_000;

/// Largest rotate sensitivity (100.0).
pub const ROT_SENS_MAX: i64 = 1_000_000;

/// Largest accumulated zoom level (1000 lines in either direction).
pub const LEVEL_MAX: i64 = 10_000_000;

/// Largest magnitude of one aggregated pan component accepted by `rotate`.
pub const PAN_MAX: i64 = 4_096_000_000_000;

/// Largest elapsed time per tick (100 s).
pub const ELAPSED_MAX: i64 = 1_000_000;

/// Binary digits of the zoom level's fractional line part that the distance
/// derivation resolves.
pub const FRAC_BITS: u32 = 13;

/// The orbit state: `x` is the yaw (azimuth about the world vertical axis),
/// `y` the pitch (polar angle from the vertical pole), both in grid radians.
/// `base_distance` and the accumulated `zoom_level` together determine the
/// radial distance (see [`spec_distance`]).
#[derive(Clone, Copy, PartialEq, Eq, Structural, Debug)]
pub struct OrbitCamera {
    pub x: i64,
    pub y: i64,
    pub base_distance: i64,
    pub zoom_level: i64,
    pub center: Vec3Fx,
    pub rotate_sensitivity: i64,
    pub zoom_sensitivity: i64,
}

impl OrbitCamera {
    /// The state invariant: angles in their canonical ranges, distance data
    /// strictly positive and bounded, sensitivities in range (the zoom
    /// sensitivity must lie in `(0, 1)` to act as a decay base).
    pub open spec fn wf(self) -> bool {
        &&& 0 <= self.x < TWO_PI_FX
        &&& 0 <= self.y <= PITCH_MAX
        &&& DIST_MIN <= self.base_distance <= DIST_MAX
        &&& -LEVEL_MAX <= self.zoom_level <= LEVEL_MAX
        &&& -CENTER_MAX <= self.center.x <= CENTER_MAX
        &&& -CENTER_MAX <= self.center.y <= CENTER_MAX
        &&& -CENTER_MAX <= self.center.z <= CENTER_MAX
        &&& 0 <= self.rotate_sensitivity <= ROT_SENS_MAX
        &&& 0 < self.zoom_sensitivity < SCALE
    }

    /// A camera focused on `center` at the given starting distance, with the
    /// default sensitivities.
    pub fn new(dist: i64, center: Vec3Fx) -> (c: OrbitCamera)
        requires
            DIST_MIN <= dist <= DIST_MAX,
            -CENTER_MAX <= center.x <= CENTER_MAX,
            -CENTER_MAX <= center.y <= CENTER_MAX,
            -CENTER_MAX <= center.z <= CENTER_MAX,
        ensures
            c.wf(),
            c.x == 0 && c.y == 0,
            c.base_distance == dist && c.zoom_level == 0,
            c.center == center,
            c.rotate_sensitivity == SCALE,
            c.zoom_sensitivity == 8000,
    {
        OrbitCamera {
            x: 0,
            y: 0,
            base_distance: dist,
            zoom_level: 0,
            center,
            rotate_sensitivity: SCALE,
            zoom_sensitivity: 8000,
        }
    }
}

impl Default for OrbitCamera {
    /// The default camera: origin focus, distance 5.0, rotate sensitivity
    /// 1.0, zoom sensitivity 0.8.
    fn default() -> (c: OrbitCamera)
        ensures
            c.wf(),
            c.x == 0 && c.y == 0,
            c.base_distance == 50000 && c.zoom_level == 0,
            c.center == (Vec3Fx { x: 0, y: 0, z: 0 }),
            c.rotate_sensitivity == SCALE,
            c.zoom_sensitivity == 8000,
    {
        OrbitCamera {
            x: 0,
            y: 0,
            base_distance: 50000,
            zoom_level: 0,
            center: Vec3Fx { x: 0, y: 0, z: 0 },
            rotate_sensitivity: SCALE,
            zoom_sensitivity: 8000,
        }
    }
}

/// A derived distance value floored at the positive minimum.
pub open spec fn dist_floor(v: int) -> int {
    if v < DIST_MIN {
        DIST_MIN as int
    } else {
        v
    }
}

/// A derived distance value capped at the maximum.
pub open spec fn dist_cap(v: int) -> int {
    if v > DIST_MAX {
        DIST_MAX as int
    } else {
        v
    }
}

/// A unit-range factor floored at one grid step so it stays positive.
pub open spec fn unit_floor(v: int) -> int {
    if v < 1 {
        1
    } else {
        v
    }
}

/// Square root on the grid: the floor square root of `v / SCALE`, as a grid
/// value.
pub open spec fn fx_sqrt_spec(v: int) -> int {
    isqrt_spec((v * SCALE) as nat) as int
}

/// The fractional zoom factor `sens^(rem / SCALE)` resolved to `k` binary
/// digits: the remainder's binary expansion selects iterated square roots of
/// the sensitivity, multiplied together on the grid.
pub open spec fn frac_pow_go(c: int, rem: int, k: nat) -> int
    decreases k,
{
    if k == 0 {
        SCALE as int
    } else {
        let c1 = fx_sqrt_spec(c);
        let rem2 = 2 * rem;
        if rem2 >= SCALE {
            unit_floor(fx_mul_spec(c1, frac_pow_go(c1, rem2 - SCALE, (k - 1) as nat)))
        } else {
            frac_pow_go(c1, rem2, (k - 1) as nat)
        }
    }
}

/// The fractional zoom factor at the controller's resolution.
pub open spec fn frac_factor(sens: int, rem: int) -> int {
    frac_pow_go(sens, rem, FRAC_BITS as nat)
}

/// `n` whole zoom-in steps: each multiplies the distance by the sensitivity
/// on the grid, floored at the positive minimum.
pub open spec fn zoom_in_steps(d: int, sens: int, n: nat) -> int
    decreases n,
{
    if n == 0 {
        d
    } else {
        dist_floor(fx_mul_spec(zoom_in_steps(d, sens, (n - 1) as nat), sens))
    }
}

/// `n` whole zoom-out steps: each divides the distance by the sensitivity on
/// the grid, capped at the maximum and floored at the positive minimum.
pub open spec fn zoom_out_steps(d: int, sens: int, n: nat) -> int
    decreases n,
{
    if n == 0 {
        d
    } else {
        dist_cap(dist_floor(div_trunc(zoom_out_steps(d, sens, (n - 1) as nat) * SCALE, sens)))
    }
}

/// The radial distance represented by a base distance, a zoom sensitivity
/// and an accumulated zoom level: the level splits into whole lines and a
/// fractional remainder; the fractional factor applies first, then the whole
/// steps.  A pure function of its arguments, so equal levels always yield
/// equal distances.
pub open spec fn spec_distance(base: int, sens: int, level: int) -> int {
    let w = level / (SCALE as int);
    let rem = level % (SCALE as int);
    let d0 = dist_floor(fx_mul_spec(base, frac_factor(sens, rem)));
    if w >= 0 {
        zoom_in_steps(d0, sens, w as nat)
    } else {
        zoom_out_steps(d0, sens, (-w) as nat)
    }
}

/// The distance a camera state represents.
pub open spec fn camera_distance(cam: OrbitCamera) -> int {
    spec_distance(cam.base_distance as int, cam.zoom_sensitivity as int, cam.zoom_level as int)
}

/// The grid square root of a unit-range value stays in the unit range and
/// off zero.
proof fn lemma_fx_sqrt_range(v: int)
    requires
        1 <= v <= SCALE,
    ensures
        1 <= fx_sqrt_spec(v) <= SCALE,
{
    let n = (v * SCALE) as nat;
    assert(SCALE <= v * SCALE <= SCALE * SCALE) by (nonlinear_arith)
        requires
            1 <= v <= SCALE,
    {}
    crate::fx::lemma_isqrt_spec_bracket(n);
    let q = isqrt_spec(n);
    assert(q >= 1) by (nonlinear_arith)
        requires
            q >= 0,
            (q + 1) * (q + 1) > n,
            n >= 10000,
    {}
    assert(q <= SCALE) by (nonlinear_arith)
        requires
            q * q <= n,
            n <= 10000 * 10000,
            q >= 0,
    {}
}

/// The fractional factor stays in `[1, SCALE]`.
proof fn lemma_frac_range(c: int, rem: int, k: nat)
    requires
        1 <= c <= SCALE,
        0 <= rem < SCALE,
    ensures
        1 <= frac_pow_go(c, rem, k) <= SCALE,
    decreases k,
{
    if k > 0 {
        lemma_fx_sqrt_range(c);
        let c1 = fx_sqrt_spec(c);
        let rem2 = 2 * rem;
        if rem2 >= SCALE {
            lemma_frac_range(c1, rem2 - SCALE, (k - 1) as nat);
            let rest = frac_pow_go(c1, rem2 - SCALE, (k - 1) as nat);
            assert(0 <= c1 * rest <= SCALE * (SCALE as int)) by (nonlinear_arith)
                requires
                    1 <= c1 <= SCALE,
                    1 <= rest <= SCALE,
            {}
            lemma_div_trunc_mag(c1 * rest, SCALE as int, SCALE as int);
        } else {
            lemma_frac_range(c1, rem2, (k - 1) as nat);
        }
    }
}

/// Whole zoom-in steps keep the distance in `[DIST_MIN, DIST_MAX]`.
proof fn lemma_zoom_in_range(d: int, sens: int, n: nat)
    requires
        DIST_MIN <= d <= DIST_MAX,
        1 <= sens < SCALE,
    ensures
        DIST_MIN <= zoom_in_steps(d, sens, n) <= DIST_MAX,
    decreases n,
{
    if n > 0 {
        lemma_zoom_in_range(d, sens, (n - 1) as nat);
        let prev = zoom_in_steps(d, sens, (n - 1) as nat);
        assert(-prev * (SCALE as int) <= prev * sens <= prev * (SCALE as int))
            by (nonlinear_arith)
            requires
                1 <= prev,
                1 <= sens < SCALE,
        {}
        lemma_div_trunc_mag(prev * sens, SCALE as int, prev);
    }
}

/// Whole zoom-out steps keep the distance in `[DIST_MIN, DIST_MAX]`.
proof fn lemma_zoom_out_range(d: int, sens: int, n: nat)
    requires
        DIST_MIN <= d <= DIST_MAX,
        1 <= sens < SCALE,
    ensures
        DIST_MIN <= zoom_out_steps(d, sens, n) <= DIST_MAX,
    decreases n,
{
    if n > 0 {
        lemma_zoom_out_range(d, sens, (n - 1) as nat);
    }
}

/// The derived distance is always in `[DIST_MIN, DIST_MAX]`.
pub proof fn lemma_spec_distance_range(base: int, sens: int, level: int)
    requires
        DIST_MIN <= base <= DIST_MAX,
        1 <= sens < SCALE,
        -LEVEL_MAX <= level <= LEVEL_MAX,
    ensures
        DIST_MIN <= spec_distance(base, sens, level) <= DIST_MAX,
{
    let w = level / (SCALE as int);
    let rem = level % (SCALE as int);
    lemma_mod_bound(level, SCALE as int);
    lemma_frac_range(sens, rem, FRAC_BITS as nat);
    let f = frac_factor(sens, rem);
    assert(0 <= base * f <= base * (SCALE as int)) by (nonlinear_arith)
        requires
            1 <= base,
            1 <= f <= SCALE,
    {}
    lemma_div_trunc_mag(base * f, SCALE as int, base);
    let d0 = dist_floor(fx_mul_spec(base, f));
    if w >= 0 {
        lemma_zoom_in_range(d0, sens, w as nat);
    } else {
        lemma_zoom_out_range(d0, sens, (-w) as nat);
    }
}

/// Grid square root: floor square root of a unit-range grid value.
fn fx_sqrt(v: i64) -> (r: i64)
    requires
        0 <= v <= SCALE,
    ensures
        r == fx_sqrt_spec(v as int),
        0 <= r <= SCALE,
        v >= 1 ==> r >= 1,
{
    proof {
        assert(0 <= (v as int) * (SCALE as int) <= (SCALE as int) * (SCALE as int))
            by (nonlinear_arith)
            requires
                0 <= v as int <= SCALE,
        {}
    }
    let n: u128 = (v as u128) * (SCALE as u128);
    let q: u64 = isqrt(n);
    proof {
        lemma_isqrt_unique(n as nat, q as nat);
        if v >= 1 {
            lemma_fx_sqrt_range(v as int);
        } else {
            assert(n == 0) by (nonlinear_arith)
                requires
                    v == 0,
                    n as int == (v as int) * (SCALE as int),
            {}
        }
    }
    q as i64
}

/// The fractional zoom factor, computed by the binary expansion of the
/// remainder over iterated square roots of the sensitivity.
fn frac_pow(c: i64, rem: i64, k: u32) -> (r: i64)
    requires
        1 <= c <= SCALE,
        0 <= rem < SCALE,
    ensures
        r == frac_pow_go(c as int, rem as int, k as nat),
        1 <= r <= SCALE,
    decreases k,
{
    proof {
        lemma_frac_range(c as int, rem as int, k as nat);
    }
    if k == 0 {
        SCALE
    } else {
        let c1 = fx_sqrt(c);
        let rem2 = 2 * rem;
        if rem2 >= SCALE {
            let rest = frac_pow(c1, rem2 - SCALE, k - 1);
            let m = fx_mul(c1, rest);
            if m < 1 {
                1
            } else {
                m
            }
        } else {
            frac_pow(c1, rem2, k - 1)
        }
    }
}

/// Apply `n` whole zoom-in steps.
fn steps_in(d: i64, sens: i64, n: u32) -> (r: i64)
    requires
        DIST_MIN <= d <= DIST_MAX,
        1 <= sens < SCALE,
        n <= 1000,
    ensures
        r == zoom_in_steps(d as int, sens as int, n as nat),
        DIST_MIN <= r <= DIST_MAX,
    decreases n,
{
    proof {
        lemma_zoom_in_range(d as int, sens as int, n as nat);
    }
    if n == 0 {
        d
    } else {
        let prev = steps_in(d, sens, n - 1);
        let m = fx_mul(prev, sens);
        if m < DIST_MIN {
            DIST_MIN
        } else {
            m
        }
    }
}

/// Apply `n` whole zoom-out steps.
fn steps_out(d: i64, sens: i64, n: u32) -> (r: i64)
    requires
        DIST_MIN <= d <= DIST_MAX,
        1 <= sens < SCALE,
        n <= 1000,
    ensures
        r == zoom_out_steps(d as int, sens as int, n as nat),
        DIST_MIN <= r <= DIST_MAX,
    decreases n,
{
    proof {
        lemma_zoom_out_range(d as int, sens as int, n as nat);
    }
    if n == 0 {
        d
    } else {
        let prev = steps_out(d, sens, n - 1);
        proof {
            assert(0 <= (prev as int) * (SCALE as int) <= (DIST_MAX as int) * (SCALE as int))
                by (nonlinear_arith)
                requires
                    1 <= prev as int <= DIST_MAX,
            {}
            lemma_div_trunc_mag((prev as int) * (SCALE as int), sens as int, (DIST_MAX as int)
                * (SCALE as int));
        }
        let p: i128 = (prev as i128) * (SCALE as i128);
        let q: i128 = div_trunc_i128(p, sens as i128);
        let m: i64 = if q > DIST_MAX as i128 {
            DIST_MAX
        } else {
            q as i64
        };
        if m < DIST_MIN {
            DIST_MIN
        } else {
            m
        }
    }
}

impl OrbitCamera {
    /// The radial orbit distance this state represents.
    pub fn distance(&self) -> (r: i64)
        requires
            self.wf(),
        ensures
            r == camera_distance(*self),
            DIST_MIN <= r <= DIST_MAX,
    {
        let level = self.zoom_level;
        let ghost lvl: int = level as int;
        let (w, rem): (i64, i64) = if level >= 0 {
            (level / SCALE, level % SCALE)
        } else {
            let q = (-level) / SCALE;
            let m = (-level) % SCALE;
            proof {
                lemma_fundamental_div_mod(-lvl, SCALE as int);
                lemma_mod_bound(-lvl, SCALE as int);
                if m == 0 {
                    assert(lvl == (SCALE as int) * (-(q as int)) + 0) by (nonlinear_arith)
                        requires
                            -lvl == (SCALE as int) * (q as int) + (m as int),
                            m == 0,
                    {}
                    lemma_fundamental_div_mod_converse(lvl, SCALE as int, -(q as int), 0);
                } else {
                    assert(lvl == (SCALE as int) * (-(q as int) - 1) + ((SCALE as int) - (
                    m as int))) by (nonlinear_arith)
                        requires
                            -lvl == (SCALE as int) * (q as int) + (m as int),
                    {}
                    lemma_fundamental_div_mod_converse(
                        lvl,
                        SCALE as int,
                        -(q as int) - 1,
                        (SCALE as int) - (m as int),
                    );
                }
            }
            if m == 0 {
                (-q, 0)
            } else {
                (-q - 1, SCALE - m)
            }
        };
        proof {
            assert(w as int == lvl / (SCALE as int));
            assert(rem as int == lvl % (SCALE as int));
            lemma_mod_bound(lvl, SCALE as int);
            // The level bound confines the whole-step count to 1000 turns.
            lemma_fundamental_div_mod(lvl, SCALE as int);
            assert(-1000 <= w as int <= 1000) by (nonlinear_arith)
                requires
                    lvl == (SCALE as int) * (w as int) + (rem as int),
                    0 <= (rem as int) < SCALE,
                    -(LEVEL_MAX as int) <= lvl <= LEVEL_MAX,
            {}
        }
        let f = frac_pow(self.zoom_sensitivity, rem, FRAC_BITS);
        proof {
            assert(0 <= (self.base_distance as int) * (f as int) <= (self.base_distance as int)
                * (SCALE as int)) by (nonlinear_arith)
                requires
                    1 <= self.base_distance as int,
                    1 <= f as int <= SCALE,
            {}
            lemma_div_trunc_mag(
                (self.base_distance as int) * (f as int),
                SCALE as int,
                self.base_distance as int,
            );
            assert(-(0x7fff_ffff_ffff_ffff * (SCALE as int)) <= (self.base_distance as int)
                * (f as int) <= 0x7fff_ffff_ffff_ffff * (SCALE as int)) by (nonlinear_arith)
                requires
                    1 <= self.base_distance as int <= DIST_MAX,
                    1 <= f as int <= SCALE,
            {}
        }
        let m0 = fx_mul(self.base_distance, f);
        let d0 = if m0 < DIST_MIN {
            DIST_MIN
        } else {
            m0
        };
        if w >= 0 {
            steps_in(d0, self.zoom_sensitivity, w as u32)
        } else {
            steps_out(d0, self.zoom_sensitivity, (-w) as u32)
        }
    }
}

/// The x component of the orbit direction: the yaw rotation composed with
/// the negative pitch rotation applied to world-up, on the grid.
pub open spec fn dir_x(yaw: int, pitch: int) -> int {
    -fx_mul_spec(sin_fx(yaw), sin_fx(pitch))
}

/// The y component of the orbit direction.
pub open spec fn dir_y(pitch: int) -> int {
    cos_fx(pitch)
}

/// The z component of the orbit direction.
pub open spec fn dir_z(yaw: int, pitch: int) -> int {
    -fx_mul_spec(cos_fx(yaw), sin_fx(pitch))
}

/// The transform a camera state derives: position on the orbit sphere, and
/// the unit forward vector pointing back at the focus center.
pub open spec fn transform_matches(t: TransformFx, cam: OrbitCamera) -> bool {
    let d = camera_distance(cam);
    &&& t.position.x == fx_mul_spec(dir_x(cam.x as int, cam.y as int), d) + cam.center.x
    &&& t.position.y == fx_mul_spec(dir_y(cam.y as int), d) + cam.center.y
    &&& t.position.z == fx_mul_spec(dir_z(cam.x as int, cam.y as int), d) + cam.center.z
    &&& t.forward.x == -dir_x(cam.x as int, cam.y as int)
    &&& t.forward.y == -dir_y(cam.y as int)
    &&& t.forward.z == -dir_z(cam.x as int, cam.y as int)
}

/// One rotation increment: the pan delta scaled by the sensitivity and the
/// elapsed time, on the grid.
pub open spec fn rot_step(delta: int, sens: int, elapsed: int) -> int {
    fx_mul_spec(fx_mul_spec(delta, sens), elapsed)
}

/// The yaw after a gated rotate: decremented by the increment and wrapped
/// into `[0, TWO_PI_FX)`.
pub open spec fn yaw_after(cam: OrbitCamera, dx: int, elapsed: int) -> int {
    (cam.x - rot_step(dx, cam.rotate_sensitivity as int, elapsed)) % (TWO_PI_FX as int)
}

/// The pitch after a gated rotate: decremented by the increment and clamped
/// hard into `[PITCH_MIN, PITCH_MAX]`, so the camera cannot flip over the
/// pole.
pub open spec fn pitch_after(cam: OrbitCamera, dy: int, elapsed: int) -> int {
    clamp_spec(
        cam.y - rot_step(dy, cam.rotate_sensitivity as int, elapsed),
        PITCH_MIN as int,
        PITCH_MAX as int,
    )
}

impl OrbitCamera {
    /// Consume the tick's aggregated pan delta.  When the activation gate is
    /// off (the drag button is not held) nothing changes: neither the orbit
    /// state nor the transform.  When it is on, yaw and pitch move against
    /// the delta, the pitch is clamped, and the transform is rebuilt from
    /// the spherical state: position from the yaw-then-pitch rotation of
    /// world-up scaled by the distance, forward looking back at the center.
    pub fn rotate(&mut self, pan: Vec2Fx, gate: bool, elapsed: i64, t: &mut TransformFx)
        requires
            old(self).wf(),
            -PAN_MAX <= pan.x <= PAN_MAX,
            -PAN_MAX <= pan.y <= PAN_MAX,
            0 <= elapsed <= ELAPSED_MAX,
        ensures
            final(self).wf(),
            !gate ==> *final(self) == *old(self) && *final(t) == *old(t),
            gate ==> final(self).x == yaw_after(*old(self), pan.x as int, elapsed as int),
            gate ==> final(self).y == pitch_after(*old(self), pan.y as int, elapsed as int),
            gate ==> PITCH_MIN <= final(self).y <= PITCH_MAX,
            final(self).base_distance == old(self).base_distance,
            final(self).zoom_level == old(self).zoom_level,
            final(self).center == old(self).center,
            final(self).rotate_sensitivity == old(self).rotate_sensitivity,
            final(self).zoom_sensitivity == old(self).zoom_sensitivity,
            gate ==> transform_matches(*final(t), *final(self)),
            gate ==> -POS_MAX <= final(t).position.x <= POS_MAX && -POS_MAX
                <= final(t).position.y <= POS_MAX && -POS_MAX <= final(t).position.z <= POS_MAX,
    {
        if !gate {
            return ;
        }
        let sens = self.rotate_sensitivity;
        proof {
            assert(-(PAN_MAX as int) * (ROT_SENS_MAX as int) <= (pan.x as int) * (sens as int)
                <= (PAN_MAX as int) * (ROT_SENS_MAX as int)) by (nonlinear_arith)
                requires
                    -(PAN_MAX as int) <= pan.x as int <= PAN_MAX,
                    0 <= sens as int <= ROT_SENS_MAX,
            {}
            assert(-(PAN_MAX as int) * (ROT_SENS_MAX as int) <= (pan.y as int) * (sens as int)
                <= (PAN_MAX as int) * (ROT_SENS_MAX as int)) by (nonlinear_arith)
                requires
                    -(PAN_MAX as int) <= pan.y as int <= PAN_MAX,
                    0 <= sens as int <= ROT_SENS_MAX,
            {}
            lemma_div_trunc_mag(
                (pan.x as int) * (sens as int),
                SCALE as int,
                410_000_000_000_000,
            );
            lemma_div_trunc_mag(
                (pan.y as int) * (sens as int),
                SCALE as int,
                410_000_000_000_000,
            );
        }
        let sx = fx_mul(pan.x, sens);
        let sy = fx_mul(pan.y, sens);
        proof {
            assert(-410_000_000_000_000 * (ELAPSED_MAX as int) <= (sx as int) * (elapsed as int)
                <= 410_000_000_000_000 * (ELAPSED_MAX as int)) by (nonlinear_arith)
                requires
                    -(410_000_000_000_000int) <= sx as int <= 410_000_000_000_000,
                    0 <= elapsed as int <= ELAPSED_MAX,
            {}
            assert(-410_000_000_000_000 * (ELAPSED_MAX as int) <= (sy as int) * (elapsed as int)
                <= 410_000_000_000_000 * (ELAPSED_MAX as int)) by (nonlinear_arith)
                requires
                    -(410_000_000_000_000int) <= sy as int <= 410_000_000_000_000,
                    0 <= elapsed as int <= ELAPSED_MAX,
            {}
            lemma_div_trunc_mag(
                (sx as int) * (elapsed as int),
                SCALE as int,
                41_000_000_000_000_000,
            );
            lemma_div_trunc_mag(
                (sy as int) * (elapsed as int),
                SCALE as int,
                41_000_000_000_000_000,
            );
        }
        let step_x = fx_mul(sx, elapsed);
        let step_y = fx_mul(sy, elapsed);
        self.x = mod_euclid(self.x - step_x, TWO_PI_FX);
        self.y = clamp_i64(self.y - step_y, PITCH_MIN, PITCH_MAX);
        self.write_transform(t);
    }

    /// Rebuild the transform from the current spherical state.
    fn write_transform(&self, t: &mut TransformFx)
        requires
            self.wf(),
        ensures
            transform_matches(*final(t), *self),
            -POS_MAX <= final(t).position.x <= POS_MAX,
            -POS_MAX <= final(t).position.y <= POS_MAX,
            -POS_MAX <= final(t).position.z <= POS_MAX,
    {
        let sin_yaw = sin_unit(self.x);
        let cos_yaw = cos_unit(self.x);
        let sin_pitch = sin_unit(self.y);
        let cos_pitch = cos_unit(self.y);
        proof {
            assert(-(SCALE as int) * (SCALE as int) <= (sin_yaw as int) * (sin_pitch as int)
                <= (SCALE as int) * (SCALE as int)) by (nonlinear_arith)
                requires
                    -(SCALE as int) <= sin_yaw as int <= SCALE,
                    -(SCALE as int) <= sin_pitch as int <= SCALE,
            {}
            assert(-(SCALE as int) * (SCALE as int) <= (cos_yaw as int) * (sin_pitch as int)
                <= (SCALE as int) * (SCALE as int)) by (nonlinear_arith)
                requires
                    -(SCALE as int) <= cos_yaw as int <= SCALE,
                    -(SCALE as int) <= sin_pitch as int <= SCALE,
            {}
            lemma_div_trunc_mag((sin_yaw as int) * (sin_pitch as int), SCALE as int, SCALE as int);
            lemma_div_trunc_mag((cos_yaw as int) * (sin_pitch as int), SCALE as int, SCALE as int);
        }
        let dx = -fx_mul(sin_yaw, sin_pitch);
        let dy = cos_pitch;
        let dz = -fx_mul(cos_yaw, sin_pitch);
        let d = self.distance();
        proof {
            assert(-(SCALE as int) * (DIST_MAX as int) <= (dx as int) * (d as int) <= (SCALE as int)
                * (DIST_MAX as int)) by (nonlinear_arith)
                requires
                    -(SCALE as int) <= dx as int <= SCALE,
                    0 <= d as int <= DIST_MAX,
            {}
            assert(-(SCALE as int) * (DIST_MAX as int) <= (dy as int) * (d as int) <= (SCALE as int)
                * (DIST_MAX as int)) by (nonlinear_arith)
                requires
                    -(SCALE as int) <= dy as int <= SCALE,
                    0 <= d as int <= DIST_MAX,
            {}
            assert(-(SCALE as int) * (DIST_MAX as int) <= (dz as int) * (d as int) <= (SCALE as int)
                * (DIST_MAX as int)) by (nonlinear_arith)
                requires
                    -(SCALE as int) <= dz as int <= SCALE,
                    0 <= d as int <= DIST_MAX,
            {}
            lemma_div_trunc_mag((dx as int) * (d as int), SCALE as int, DIST_MAX as int);
            lemma_div_trunc_mag((dy as int) * (d as int), SCALE as int, DIST_MAX as int);
            lemma_div_trunc_mag((dz as int) * (d as int), SCALE as int, DIST_MAX as int);
        }
        let px = fx_mul(dx, d) + self.center.x;
        let py = fx_mul(dy, d) + self.center.y;
        let pz = fx_mul(dz, d) + self.center.z;
        t.position = Vec3Fx { x: px, y: py, z: pz };
        t.forward = Vec3Fx { x: -dx, y: -dy, z: -dz };
    }
}

/// Largest scroll total one zoom call accepts (any aggregate fits).
pub const SCROLL_CAP: i64 = 5_000_000_000_000;

/// Largest magnitude of an offset component handed to the length
/// computation.
pub const OFFSET_MAX: i64 = 5_000_000_000_000;

/// The squared length of an offset vector.
pub open spec fn len_sq(vx: int, vy: int, vz: int) -> int {
    vx * vx + vy * vy + vz * vz
}

/// The floor length of an offset vector on the grid.
pub open spec fn offset_len(vx: int, vy: int, vz: int) -> int {
    isqrt_spec(len_sq(vx, vy, vz) as nat) as int
}

/// The magnitude of an offset component, at `u128` width.
fn abs_u128(v: i64) -> (r: u128)
    requires
        -OFFSET_MAX <= v <= OFFSET_MAX,
    ensures
        r == if v >= 0 {
            v as int
        } else {
            -(v as int)
        },
{
    if v >= 0 {
        v as u128
    } else {
        (-v) as u128
    }
}

/// The floor length of a nonzero offset vector.  Every component is bounded
/// in magnitude by the length.
fn vec_len(vx: i64, vy: i64, vz: i64) -> (l: i64)
    requires
        -OFFSET_MAX <= vx <= OFFSET_MAX,
        -OFFSET_MAX <= vy <= OFFSET_MAX,
        -OFFSET_MAX <= vz <= OFFSET_MAX,
        vx != 0 || vy != 0 || vz != 0,
    ensures
        l == offset_len(vx as int, vy as int, vz as int),
        1 <= l <= 9_000_000_000_000,
        -(l as int) <= vx as int <= l as int,
        -(l as int) <= vy as int <= l as int,
        -(l as int) <= vz as int <= l as int,
{
    let ax = abs_u128(vx);
    let ay = abs_u128(vy);
    let az = abs_u128(vz);
    proof {
        assert((ax as int) * (ax as int) == (vx as int) * (vx as int) && (ax as int) * (ax as int)
            <= 5_000_000_000_000int * 5_000_000_000_000int) by (nonlinear_arith)
            requires
                -OFFSET_MAX <= vx as int <= OFFSET_MAX,
                ax as int == if vx >= 0 {
                    vx as int
                } else {
                    -(vx as int)
                },
        {}
        assert((ay as int) * (ay as int) == (vy as int) * (vy as int) && (ay as int) * (ay as int)
            <= 5_000_000_000_000int * 5_000_000_000_000int) by (nonlinear_arith)
            requires
                -OFFSET_MAX <= vy as int <= OFFSET_MAX,
                ay as int == if vy >= 0 {
                    vy as int
                } else {
                    -(vy as int)
                },
        {}
        assert((az as int) * (az as int) == (vz as int) * (vz as int) && (az as int) * (az as int)
            <= 5_000_000_000_000int * 5_000_000_000_000int) by (nonlinear_arith)
            requires
                -OFFSET_MAX <= vz as int <= OFFSET_MAX,
                az as int == if vz >= 0 {
                    vz as int
                } else {
                    -(vz as int)
                },
        {}
        assert(5_000_000_000_000int * 5_000_000_000_000int + 5_000_000_000_000int
            * 5_000_000_000_000int + 5_000_000_000_000int * 5_000_000_000_000int
            < 0xffff_ffff_ffff_ffff_ffff_ffff_ffff_ffffint) by (nonlinear_arith);
    }
    let sum: u128 = ax * ax + ay * ay + az * az;
    let q: u64 = isqrt(sum);
    proof {
        lemma_isqrt_unique(sum as nat, q as nat);
        // The vector is nonzero, so the squared length is at least one.
        assert(len_sq(vx as int, vy as int, vz as int) >= 1) by (nonlinear_arith)
            requires
                vx != 0 || vy != 0 || vz != 0,
                (vx as int) * (vx as int) >= 0,
                (vy as int) * (vy as int) >= 0,
                (vz as int) * (vz as int) >= 0,
        {}
        assert(q >= 1) by (nonlinear_arith)
            requires
                sum as int >= 1,
                ((q as int) + 1) * ((q as int) + 1) > sum as int,
                q >= 0,
        {}
        assert(q <= 9_000_000_000_000) by (nonlinear_arith)
            requires
                (q as int) * (q as int) <= sum as int,
                sum as int <= 3 * (5_000_000_000_000int * 5_000_000_000_000int),
                q >= 0,
        {}
        assert(-(q as int) <= vx as int <= q as int && -(q as int) <= vy as int <= q as int && -(
        q as int) <= vz as int <= q as int) by (nonlinear_arith)
            requires
                (vx as int) * (vx as int) <= sum as int,
                (vy as int) * (vy as int) <= sum as int,
                (vz as int) * (vz as int) <= sum as int,
                (sum as int) < ((q as int) + 1) * ((q as int) + 1),
                q >= 0,
        {}
    }
    q as i64
}

impl OrbitCamera {
    /// Consume the tick's aggregated scroll total.  The zoom is not gated:
    /// the scroll is added to the accumulated zoom level (clamped to the
    /// zoom range), and the transform position is rescaled along the ray
    /// from the focus center through the existing position — the direction
    /// is reused, never rebuilt from the angles, so zoom works before any
    /// rotation and is insensitive to drift in the direction component.
    /// The forward vector is untouched: zoom changes magnitude only.
    ///
    /// The existing position must not coincide with the center: a
    /// zero-length offset has no direction to rescale along.
    pub fn zoom(&mut self, scroll: i64, t: &mut TransformFx)
        requires
            old(self).wf(),
            -SCROLL_CAP <= scroll <= SCROLL_CAP,
            -POS_MAX <= old(t).position.x <= POS_MAX,
            -POS_MAX <= old(t).position.y <= POS_MAX,
            -POS_MAX <= old(t).position.z <= POS_MAX,
            old(t).position.x != old(self).center.x || old(t).position.y != old(self).center.y
                || old(t).position.z != old(self).center.z,
        ensures
            final(self).wf(),
            final(self).zoom_level == clamp_spec(
                old(self).zoom_level + scroll,
                -(LEVEL_MAX as int),
                LEVEL_MAX as int,
            ),
            final(self).x == old(self).x && final(self).y == old(self).y,
            final(self).base_distance == old(self).base_distance,
            final(self).center == old(self).center,
            final(self).rotate_sensitivity == old(self).rotate_sensitivity,
            final(self).zoom_sensitivity == old(self).zoom_sensitivity,
            final(t).forward == old(t).forward,
            ({
                let vx = old(t).position.x - old(self).center.x;
                let vy = old(t).position.y - old(self).center.y;
                let vz = old(t).position.z - old(self).center.z;
                let l = offset_len(vx, vy, vz);
                let d = camera_distance(*final(self));
                &&& final(t).position.x == div_trunc(vx * d, l) + old(self).center.x
                &&& final(t).position.y == div_trunc(vy * d, l) + old(self).center.y
                &&& final(t).position.z == div_trunc(vz * d, l) + old(self).center.z
            }),
            -POS_MAX <= final(t).position.x <= POS_MAX,
            -POS_MAX <= final(t).position.y <= POS_MAX,
            -POS_MAX <= final(t).position.z <= POS_MAX,
    {
        self.zoom_level = clamp_i64(self.zoom_level + scroll, -LEVEL_MAX, LEVEL_MAX);
        let d = self.distance();
        let vx = t.position.x - self.center.x;
        let vy = t.position.y - self.center.y;
        let vz = t.position.z - self.center.z;
        let l = vec_len(vx, vy, vz);
        proof {
            assert(-((d as int) * (l as int)) <= (vx as int) * (d as int) <= (d as int) * (
            l as int) && -(5_000_000_000_000int * 1_000_000_000_000int) <= (vx as int) * (
            d as int) <= 5_000_000_000_000int * 1_000_000_000_000int) by (nonlinear_arith)
                requires
                    -(l as int) <= vx as int <= l as int,
                    -(OFFSET_MAX as int) <= vx as int <= OFFSET_MAX as int,
                    0 <= d as int <= DIST_MAX,
            {}
            assert(-((d as int) * (l as int)) <= (vy as int) * (d as int) <= (d as int) * (
            l as int) && -(5_000_000_000_000int * 1_000_000_000_000int) <= (vy as int) * (
            d as int) <= 5_000_000_000_000int * 1_000_000_000_000int) by (nonlinear_arith)
                requires
                    -(l as int) <= vy as int <= l as int,
                    -(OFFSET_MAX as int) <= vy as int <= OFFSET_MAX as int,
                    0 <= d as int <= DIST_MAX,
            {}
            assert(-((d as int) * (l as int)) <= (vz as int) * (d as int) <= (d as int) * (
            l as int) && -(5_000_000_000_000int * 1_000_000_000_000int) <= (vz as int) * (
            d as int) <= 5_000_000_000_000int * 1_000_000_000_000int) by (nonlinear_arith)
                requires
                    -(l as int) <= vz as int <= l as int,
                    -(OFFSET_MAX as int) <= vz as int <= OFFSET_MAX as int,
                    0 <= d as int <= DIST_MAX,
            {}
            lemma_div_trunc_mag((vx as int) * (d as int), l as int, d as int);
            lemma_div_trunc_mag((vy as int) * (d as int), l as int, d as int);
            lemma_div_trunc_mag((vz as int) * (d as int), l as int, d as int);
        }
        let wx: i128 = div_trunc_i128((vx as i128) * (d as i128), l as i128);
        let wy: i128 = div_trunc_i128((vy as i128) * (d as i128), l as i128);
        let wz: i128 = div_trunc_i128((vz as i128) * (d as i128), l as i128);
        t.position = Vec3Fx {
            x: (wx as i64) + self.center.x,
            y: (wy as i64) + self.center.y,
            z: (wz as i64) + self.center.z,
        };
    }
}

/// Zooming by `s` and then by `-s` restores the zoom level, and with it the
/// derived radial distance, exactly — the level is an exact accumulator and
/// the distance a pure function of it.  The one proviso is that the first
/// call must not run into the zoom range cap.
pub proof fn lemma_zoom_round_trip(cam: OrbitCamera, s: int)
    requires
        cam.wf(),
        -(LEVEL_MAX as int) <= cam.zoom_level + s <= LEVEL_MAX as int,
    ensures
        clamp_spec(
            clamp_spec(cam.zoom_level + s, -(LEVEL_MAX as int), LEVEL_MAX as int) - s,
            -(LEVEL_MAX as int),
            LEVEL_MAX as int,
        ) == cam.zoom_level,
        spec_distance(
            cam.base_distance as int,
            cam.zoom_sensitivity as int,
            clamp_spec(
                clamp_spec(cam.zoom_level + s, -(LEVEL_MAX as int), LEVEL_MAX as int) - s,
                -(LEVEL_MAX as int),
                LEVEL_MAX as int,
            ),
        ) == camera_distance(cam),
{
}

/// A zero pan delta under an active gate is a stable no-op: yaw and pitch
/// keep their values (once the pitch is inside the clamp range), so the
/// recomputed transform is the reproducible spherical baseline of the
/// unchanged state.
pub proof fn lemma_rotate_zero_delta(cam: OrbitCamera, elapsed: int)
    requires
        cam.wf(),
        PITCH_MIN <= cam.y,
    ensures
        yaw_after(cam, 0, elapsed) == cam.x,
        pitch_after(cam, 0, elapsed) == cam.y,
{
    lemma_mul_by_zero_is_zero(cam.rotate_sensitivity as int);
    assert(rot_step(0, cam.rotate_sensitivity as int, elapsed) == 0) by {
        assert(fx_mul_spec(0, cam.rotate_sensitivity as int) == 0);
        lemma_mul_by_zero_is_zero(elapsed);
        assert(fx_mul_spec(0, elapsed) == 0);
    }
    lemma_small_mod(cam.x as nat, TWO_PI_FX as nat);
}

/// One whole zoom-in line multiplies the derived distance by exactly the
/// sensitivity on the grid (floored at the positive minimum): the level's
/// fractional remainder is unchanged and one more whole step applies.
/// Stated for states not zoomed out below the base distance, where the
/// whole steps are multiplications; and adding zero scroll leaves the
/// level, and hence the distance, unchanged.
pub proof fn lemma_zoom_unit_step(cam: OrbitCamera)
    requires
        cam.wf(),
        0 <= cam.zoom_level,
        cam.zoom_level + SCALE <= LEVEL_MAX,
    ensures
        spec_distance(
            cam.base_distance as int,
            cam.zoom_sensitivity as int,
            cam.zoom_level + SCALE,
        ) == dist_floor(fx_mul_spec(camera_distance(cam), cam.zoom_sensitivity as int)),
        clamp_spec(cam.zoom_level + 0, -(LEVEL_MAX as int), LEVEL_MAX as int) == cam.zoom_level,
{
    let s: int = SCALE as int;
    let z: int = cam.zoom_level as int;
    lemma_fundamental_div_mod(z, s);
    lemma_mod_bound(z, s);
    let w = z / s;
    let r = z % s;
    assert(z + s == s * (w + 1) + r) by (nonlinear_arith)
        requires
            z == s * w + r,
    {}
    lemma_fundamental_div_mod_converse(z + s, s, w + 1, r);
    assert(w >= 0) by (nonlinear_arith)
        requires
            z == s * w + r,
            0 <= r < s,
            z >= 0,
    {}
    let d0 = dist_floor(fx_mul_spec(cam.base_distance as int, frac_factor(
        cam.zoom_sensitivity as int, r)));
    assert(zoom_in_steps(d0, cam.zoom_sensitivity as int, (w + 1) as nat) == dist_floor(
        fx_mul_spec(zoom_in_steps(d0, cam.zoom_sensitivity as int, w as nat),
        cam.zoom_sensitivity as int)));
}

/// Direction preservation by the zoom rescale, exact case: when the length
/// divides each scaled component, the new offset is exactly collinear with
/// the old one — every cross-product component vanishes.
pub proof fn lemma_zoom_direction_exact(vx: int, vy: int, vz: int, d: int, l: int)
    requires
        l > 0,
        d >= 0,
        (vx * d) % l == 0,
        (vy * d) % l == 0,
        (vz * d) % l == 0,
    ensures
        div_trunc(vx * d, l) * vy == div_trunc(vy * d, l) * vx,
        div_trunc(vy * d, l) * vz == div_trunc(vz * d, l) * vy,
        div_trunc(vx * d, l) * vz == div_trunc(vz * d, l) * vx,
{
    lemma_div_trunc_exact(vx * d, l);
    lemma_div_trunc_exact(vy * d, l);
    lemma_div_trunc_exact(vz * d, l);
    let wx = div_trunc(vx * d, l);
    let wy = div_trunc(vy * d, l);
    let wz = div_trunc(vz * d, l);
    assert(wx * vy == wy * vx) by (nonlinear_arith)
        requires
            wx * l == vx * d,
            wy * l == vy * d,
            l > 0,
    {}
    assert(wy * vz == wz * vy) by (nonlinear_arith)
        requires
            wy * l == vy * d,
            wz * l == vz * d,
            l > 0,
    {}
    assert(wx * vz == wz * vx) by (nonlinear_arith)
        requires
            wx * l == vx * d,
            wz * l == vz * d,
            l > 0,
    {}
}

/// Direction preservation by the zoom rescale, general case: each new
/// component times the length stays within one length step of the exactly
/// scaled component, and components never flip sign.
pub proof fn lemma_zoom_direction_bound(v: int, d: int, l: int)
    requires
        l > 0,
        d >= 0,
    ensures
        -l < div_trunc(v * d, l) * l - v * d < l,
        v >= 0 ==> div_trunc(v * d, l) >= 0,
        v <= 0 ==> div_trunc(v * d, l) <= 0,
{
    lemma_div_trunc_err(v * d, l);
    lemma_div_trunc_sign(v * d, l);
    assert(v >= 0 ==> v * d >= 0) by (nonlinear_arith)
        requires
            d >= 0,
    {}
    assert(v <= 0 ==> v * d <= 0) by (nonlinear_arith)
        requires
            d >= 0,
    {}
}

} // verus!
