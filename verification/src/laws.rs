//! The general laws of the simulation, stated and proved against the spec
//! models that the executable functions are verified to implement.

use vstd::prelude::*;

use crate::intsqrt::sqrt_floor;
use crate::particle::{collide_spec, confine_spec, integrate_spec, ParticleSpec};
use crate::state::{step_spec, steps_spec, SimConfig};
use crate::vecmath::{dist2, norm2, scale_toward_zero, v_add, v_sub, v_zero, Vec2Spec};
use crate::world::collide_pass_from;

verus! {

/// A particle with zero implicit velocity and zero accumulated acceleration.
pub open spec fn at_rest(p: ParticleSpec) -> bool {
    p.current_position == p.old_position && p.acceleration == v_zero()
}

/// No two particles of radius `r` overlap.
pub open spec fn separated(s: Seq<ParticleSpec>, r: int) -> bool {
    forall|a: int, b: int|
        0 <= a < b < s.len() ==> #[trigger] dist2(s[a].current_position, s[b].current_position)
            >= 4 * r * r
}

/// Integration moves nothing when the particle is at rest and gravity is
/// zero.
pub proof fn lemma_integrate_at_rest(p: ParticleSpec, g: Vec2Spec, dt: int)
    requires
        at_rest(p),
        g == v_zero(),
    ensures
        integrate_spec(p, g, dt) == p,
{
    vstd::arithmetic::mul::lemma_mul_basics(dt * dt);
}

/// The boundary constraint moves nothing inside the allowed circle.
pub proof fn lemma_confine_inside(
    p: ParticleSpec,
    center: Vec2Spec,
    arena_radius: int,
    particle_radius: int,
)
    requires
        dist2(p.current_position, center) <= (arena_radius - particle_radius) * (arena_radius
            - particle_radius),
    ensures
        confine_spec(p, center, arena_radius, particle_radius) == p,
{
}

/// A collision pass over a separated configuration moves nothing.
pub proof fn lemma_pass_separated(s: Seq<ParticleSpec>, i: nat, j: nat, r: int)
    requires
        separated(s, r),
        i < j,
    ensures
        collide_pass_from(s, i, j, r) == s,
    decreases s.len() - i, s.len() + 1 - j,
{
    if i >= s.len() {
    } else if j >= s.len() {
        lemma_pass_separated(s, (i + 1) as nat, (i + 2) as nat, r);
    } else {
        let pair = collide_spec(s[i as int], s[j as int], r);
        assert(dist2(s[i as int].current_position, s[j as int].current_position) >= 4 * r * r);
        assert(pair.0 == s[i as int] && pair.1 == s[j as int]);
        assert(s.update(i as int, pair.0).update(j as int, pair.1) =~= s);
        lemma_pass_separated(s, i, (j + 1) as nat, r);
    }
}

/// With zero gravity, zero implicit velocities, every particle inside the
/// arena, and no overlaps, one whole step changes nothing.
pub proof fn lemma_rest_step_fixed(s: Seq<ParticleSpec>, config: SimConfig, dt: int)
    requires
        config.gravity@ == v_zero(),
        config.particle_radius <= config.arena_radius,
        forall|k: int| 0 <= k < s.len() ==> at_rest(#[trigger] s[k]),
        forall|k: int|
            0 <= k < s.len() ==> dist2(#[trigger] s[k].current_position, config.arena_center@)
                <= (config.arena_radius - config.particle_radius) * (config.arena_radius
                - config.particle_radius),
        separated(s, config.particle_radius as int),
    ensures
        step_spec(s, config, dt) == s,
{
    let f = |p: ParticleSpec|
        confine_spec(
            integrate_spec(p, config.gravity@, dt),
            config.arena_center@,
            config.arena_radius as int,
            config.particle_radius as int,
        );
    let mapped = s.map_values(f);
    assert forall|k: int| 0 <= k < s.len() implies f(s[k]) == s[k] by {
        lemma_integrate_at_rest(s[k], config.gravity@, dt);
        lemma_confine_inside(
            s[k],
            config.arena_center@,
            config.arena_radius as int,
            config.particle_radius as int,
        );
    }
    assert(mapped =~= s);
    lemma_pass_separated(s, 0, 1, config.particle_radius as int);
}

/// Position is unchanged after any number of steps for a resting,
/// non-overlapping, in-bounds configuration under zero gravity.
pub proof fn lemma_rest_steps_fixed(s: Seq<ParticleSpec>, config: SimConfig, dt: int, k: nat)
    requires
        config.gravity@ == v_zero(),
        config.particle_radius <= config.arena_radius,
        forall|m: int| 0 <= m < s.len() ==> at_rest(#[trigger] s[m]),
        forall|m: int|
            0 <= m < s.len() ==> dist2(#[trigger] s[m].current_position, config.arena_center@)
                <= (config.arena_radius - config.particle_radius) * (config.arena_radius
                - config.particle_radius),
        separated(s, config.particle_radius as int),
    ensures
        steps_spec(s, config, dt, k) == s,
    decreases k,
{
    if k > 0 {
        lemma_rest_step_fixed(s, config, dt);
        lemma_rest_steps_fixed(s, config, dt, (k - 1) as nat);
    }
}

/// Free fall: `k` integrations in a row, nothing else acting.
pub open spec fn free_fall_spec(p: ParticleSpec, g: Vec2Spec, dt: int, k: nat) -> ParticleSpec
    decreases k,
{
    if k == 0 {
        p
    } else {
        free_fall_spec(integrate_spec(p, g, dt), g, dt, (k - 1) as nat)
    }
}

/// Closed form of free fall: after `k` integrations the implicit velocity
/// has grown by `k` kicks of `g * dt * dt`, and the displacement is the
/// accumulated sum of the per-step deltas, `g * dt * dt * k * (k + 1) / 2`.
pub proof fn lemma_free_fall_general(p: ParticleSpec, g: Vec2Spec, dt: int, k: nat)
    requires
        p.acceleration == v_zero(),
    ensures
        free_fall_spec(p, g, dt, k).acceleration == v_zero(),
        k == 0 ==> free_fall_spec(p, g, dt, k) == p,
        2 * (free_fall_spec(p, g, dt, k).current_position.x - p.current_position.x) == 2 * (
        k as int) * (p.current_position.x - p.old_position.x) + (g.x * (dt * dt)) * ((k as int) * (
        k as int + 1)),
        2 * (free_fall_spec(p, g, dt, k).current_position.y - p.current_position.y) == 2 * (
        k as int) * (p.current_position.y - p.old_position.y) + (g.y * (dt * dt)) * ((k as int) * (
        k as int + 1)),
        k > 0 ==> free_fall_spec(p, g, dt, k).current_position.x - free_fall_spec(
            p,
            g,
            dt,
            k,
        ).old_position.x == (p.current_position.x - p.old_position.x) + k * (g.x * (dt * dt)),
        k > 0 ==> free_fall_spec(p, g, dt, k).current_position.y - free_fall_spec(
            p,
            g,
            dt,
            k,
        ).old_position.y == (p.current_position.y - p.old_position.y) + k * (g.y * (dt * dt)),
    decreases k,
{
    let kk = k as int;
    let xkick = g.x * (dt * dt);
    let ykick = g.y * (dt * dt);
    if k == 0 {
        assert(2 * (free_fall_spec(p, g, dt, k).current_position.x - p.current_position.x) == 2
            * kk * (p.current_position.x - p.old_position.x) + xkick * (kk * (kk + 1)))
            by (nonlinear_arith)
            requires
                kk == 0,
                free_fall_spec(p, g, dt, k).current_position.x == p.current_position.x,
        ;
        assert(2 * (free_fall_spec(p, g, dt, k).current_position.y - p.current_position.y) == 2
            * kk * (p.current_position.y - p.old_position.y) + ykick * (kk * (kk + 1)))
            by (nonlinear_arith)
            requires
                kk == 0,
                free_fall_spec(p, g, dt, k).current_position.y == p.current_position.y,
        ;
    } else {
        let p1 = integrate_spec(p, g, dt);
        assert(p1.current_position.x == p.current_position.x + (p.current_position.x
            - p.old_position.x) + xkick);
        assert(p1.old_position == p.current_position);
        lemma_free_fall_general(p1, g, dt, (k - 1) as nat);
        let f = free_fall_spec(p, g, dt, k);
        assert(f == free_fall_spec(p1, g, dt, (k - 1) as nat));
        let v0x = p.current_position.x - p.old_position.x;
        let v0y = p.current_position.y - p.old_position.y;
        if k == 1 {
            assert(f == p1);
            assert(f.current_position.x - f.old_position.x == v0x + kk * xkick)
                by (nonlinear_arith)
                requires
                    kk == 1,
                    f.current_position.x - f.old_position.x == v0x + xkick,
            ;
            assert(f.current_position.y - f.old_position.y == v0y + kk * ykick)
                by (nonlinear_arith)
                requires
                    kk == 1,
                    f.current_position.y - f.old_position.y == v0y + ykick,
            ;
            assert(2 * (f.current_position.x - p.current_position.x) == 2 * kk * v0x + xkick * (kk
                * (kk + 1))) by (nonlinear_arith)
                requires
                    kk == 1,
                    f.current_position.x - p.current_position.x == v0x + xkick,
            ;
            assert(2 * (f.current_position.y - p.current_position.y) == 2 * kk * v0y + ykick * (kk
                * (kk + 1))) by (nonlinear_arith)
                requires
                    kk == 1,
                    f.current_position.y - p.current_position.y == v0y + ykick,
            ;
        } else {
            assert(f.current_position.x - f.old_position.x == (v0x + xkick) + (kk - 1) * xkick);
            assert(f.current_position.x - f.old_position.x == v0x + kk * xkick)
                by (nonlinear_arith)
                requires
                    f.current_position.x - f.old_position.x == (v0x + xkick) + (kk - 1) * xkick,
            ;
            assert(f.current_position.y - f.old_position.y == (v0y + ykick) + (kk - 1) * ykick);
            assert(f.current_position.y - f.old_position.y == v0y + kk * ykick)
                by (nonlinear_arith)
                requires
                    f.current_position.y - f.old_position.y == (v0y + ykick) + (kk - 1) * ykick,
            ;
            assert(2 * (f.current_position.x - p1.current_position.x) == 2 * (kk - 1) * (v0x
                + xkick) + xkick * ((kk - 1) * kk));
            assert(2 * (f.current_position.x - p.current_position.x) == 2 * kk * v0x + xkick * (kk
                * (kk + 1))) by (nonlinear_arith)
                requires
                    2 * (f.current_position.x - p1.current_position.x) == 2 * (kk - 1) * (v0x
                        + xkick) + xkick * ((kk - 1) * kk),
                    p1.current_position.x == p.current_position.x + v0x + xkick,
            ;
            assert(2 * (f.current_position.y - p1.current_position.y) == 2 * (kk - 1) * (v0y
                + ykick) + ykick * ((kk - 1) * kk));
            assert(2 * (f.current_position.y - p.current_position.y) == 2 * kk * v0y + ykick * (kk
                * (kk + 1))) by (nonlinear_arith)
                requires
                    2 * (f.current_position.y - p1.current_position.y) == 2 * (kk - 1) * (v0y
                        + ykick) + ykick * ((kk - 1) * kk),
                    p1.current_position.y == p.current_position.y + v0y + ykick,
            ;
        }
    }
}

/// The free-fall law from rest: the accumulated displacement after `k`
/// integrations of step `dt` is exactly `g * dt * dt * k * (k + 1) / 2`
/// on each axis (stated doubled, to stay in integers).
pub proof fn lemma_free_fall_from_rest(p: ParticleSpec, g: Vec2Spec, dt: int, k: nat)
    requires
        at_rest(p),
    ensures
        2 * (free_fall_spec(p, g, dt, k).current_position.x - p.current_position.x) == (g.x * (dt
            * dt)) * ((k as int) * (k as int + 1)),
        2 * (free_fall_spec(p, g, dt, k).current_position.y - p.current_position.y) == (g.y * (dt
            * dt)) * ((k as int) * (k as int + 1)),
{
    lemma_free_fall_general(p, g, dt, k);
    let kk = k as int;
    assert(2 * kk * 0 == 0) by (nonlinear_arith);
}

/// Shared arithmetic core of the two rescaling laws. A nonnegative vector
/// `(ca, cb)` of squared length `d2` bracketed by `d` is rescaled by
/// `ratio / d` with rounding toward zero; the squared length of the result
/// lies within a small band around `ratio * ratio` whenever `ratio <= d`.
proof fn lemma_rescale_band(ca: int, cb: int, d2: int, d: int, ratio: int, u: int, v: int)
    requires
        0 <= ca,
        0 <= cb,
        d2 == ca * ca + cb * cb,
        1 <= d,
        d * d <= d2,
        d2 < (d + 1) * (d + 1),
        0 <= ratio <= d,
        u == ca * ratio / d,
        v == cb * ratio / d,
    ensures
        ratio * ratio - 4 * ratio - 1 <= u * u + v * v,
        u * u + v * v <= ratio * ratio + 2 * ratio,
        0 <= u <= ratio,
        0 <= v <= ratio,
{
    vstd::arithmetic::div_mod::lemma_fundamental_div_mod(ca * ratio, d);
    vstd::arithmetic::div_mod::lemma_fundamental_div_mod(cb * ratio, d);
    assert(0 <= ca * ratio && 0 <= cb * ratio) by (nonlinear_arith)
        requires
            0 <= ca,
            0 <= cb,
            0 <= ratio,
    ;
    vstd::arithmetic::div_mod::lemma_div_is_ordered(0, ca * ratio, d);
    vstd::arithmetic::div_mod::lemma_div_basics(d);
    vstd::arithmetic::div_mod::lemma_div_is_ordered(0, cb * ratio, d);
    assert(0 <= (ca * ratio) % d < d);
    assert(0 <= (cb * ratio) % d < d);
    assert(u * d <= ca * ratio < (u + 1) * d) by (nonlinear_arith)
        requires
            ca * ratio == d * u + (ca * ratio) % d,
            0 <= (ca * ratio) % d < d,
    ;
    assert(v * d <= cb * ratio < (v + 1) * d) by (nonlinear_arith)
        requires
            cb * ratio == d * v + (cb * ratio) % d,
            0 <= (cb * ratio) % d < d,
    ;
    assert(0 <= u <= ratio && 0 <= v <= ratio) by (nonlinear_arith)
        requires
            0 <= ca * ratio,
            0 <= cb * ratio,
            u == ca * ratio / d,
            v == cb * ratio / d,
            u * d <= ca * ratio,
            v * d <= cb * ratio,
            ca * ca <= d2,
            cb * cb <= d2,
            d2 < (d + 1) * (d + 1),
            0 <= ca,
            0 <= cb,
            0 <= ratio <= d,
            1 <= d,
    ;
    assert(ca <= d && cb <= d) by (nonlinear_arith)
        requires
            ca * ca <= d2,
            cb * cb <= d2,
            d2 < (d + 1) * (d + 1),
            0 <= ca,
            0 <= cb,
            0 <= d,
    ;
    // Upper bound: (u^2 + v^2) d^2 <= (ca^2 + cb^2) ratio^2 = d2 ratio^2
    // <= (d^2 + 2d) ratio^2, and ratio <= d forces u^2 + v^2 through.
    assert((u * u + v * v) * (d * d) <= d2 * (ratio * ratio)) by (nonlinear_arith)
        requires
            0 <= u * d <= ca * ratio,
            0 <= v * d <= cb * ratio,
            d2 == ca * ca + cb * cb,
            0 <= ca,
            0 <= cb,
            0 <= ratio,
    ;
    assert(u * u + v * v <= ratio * ratio + 2 * ratio) by (nonlinear_arith)
        requires
            (u * u + v * v) * (d * d) <= d2 * (ratio * ratio),
            d2 < (d + 1) * (d + 1),
            0 <= ratio <= d,
            1 <= d,
            0 <= u,
            0 <= v,
    ;
    // Lower bound: ((u+1)^2 + (v+1)^2) d^2 > d2 ratio^2 >= d^2 ratio^2.
    assert(((u + 1) * d) * ((u + 1) * d) > (ca * ratio) * (ca * ratio)) by (nonlinear_arith)
        requires
            ca * ratio < (u + 1) * d,
            0 <= ca * ratio,
    ;
    assert(((v + 1) * d) * ((v + 1) * d) > (cb * ratio) * (cb * ratio)) by (nonlinear_arith)
        requires
            cb * ratio < (v + 1) * d,
            0 <= cb * ratio,
    ;
    assert(((u + 1) * d) * ((u + 1) * d) == ((u + 1) * (u + 1)) * (d * d) && ((v + 1) * d) * ((v
        + 1) * d) == ((v + 1) * (v + 1)) * (d * d) && (ca * ratio) * (ca * ratio) == (ca * ca) * (
    ratio * ratio) && (cb * ratio) * (cb * ratio) == (cb * cb) * (ratio * ratio) && ((u + 1) * (u
        + 1) + (v + 1) * (v + 1)) * (d * d) == ((u + 1) * (u + 1)) * (d * d) + ((v + 1) * (v + 1))
        * (d * d) && (ca * ca + cb * cb) * (ratio * ratio) == (ca * ca) * (ratio * ratio) + (cb
        * cb) * (ratio * ratio)) by (nonlinear_arith);
    vstd::arithmetic::mul::lemma_mul_inequality(d * d, d2, ratio * ratio);
    assert(d2 * (ratio * ratio) == (ca * ca + cb * cb) * (ratio * ratio));
    assert((d * d) * (ratio * ratio) <= d2 * (ratio * ratio)) by (nonlinear_arith)
        requires
            d * d <= d2,
            0 <= ratio * ratio,
            0 <= ratio,
    ;
    assert(((u + 1) * (u + 1) + (v + 1) * (v + 1)) * (d * d) > (d * d) * (ratio * ratio));
    assert(ratio * ratio - 4 * ratio - 1 <= u * u + v * v) by (nonlinear_arith)
        requires
            ((u + 1) * (u + 1) + (v + 1) * (v + 1)) * (d * d) > (d * d) * (ratio * ratio),
            1 <= d,
            0 <= u <= ratio,
            0 <= v <= ratio,
    ;
}

/// After the boundary constraint, a particle that stood outside the allowed
/// circle of radius `l = arena_radius - particle_radius` sits at squared
/// distance within `[l*l - 4*l - 1, l*l + 2*l]` of the center — the radius
/// `l` up to rounding — and its offset direction is kept componentwise:
/// each offset component keeps its sign and never grows.
pub proof fn lemma_confine_boundary(
    p: ParticleSpec,
    center: Vec2Spec,
    arena_radius: int,
    particle_radius: int,
)
    requires
        particle_radius <= arena_radius,
        dist2(p.current_position, center) > (arena_radius - particle_radius) * (arena_radius
            - particle_radius),
    ensures
        ({
            let l = arena_radius - particle_radius;
            let q = confine_spec(p, center, arena_radius, particle_radius).current_position;
            let off = v_sub(p.current_position, center);
            let noff = v_sub(q, center);
            &&& l * l - 4 * l - 1 <= dist2(q, center)
            &&& dist2(q, center) <= l * l + 2 * l
            &&& (off.x >= 0 ==> 0 <= noff.x <= off.x)
            &&& (off.x <= 0 ==> off.x <= noff.x <= 0)
            &&& (off.y >= 0 ==> 0 <= noff.y <= off.y)
            &&& (off.y <= 0 ==> off.y <= noff.y <= 0)
        }),
{
    let l = arena_radius - particle_radius;
    let off = v_sub(p.current_position, center);
    let d2 = norm2(off);
    let ca = vstd::math::abs(off.x) as int;
    let cb = vstd::math::abs(off.y) as int;
    assert(d2 == ca * ca + cb * cb) by (nonlinear_arith)
        requires
            d2 == off.x * off.x + off.y * off.y,
            ca == vstd::math::abs(off.x),
            cb == vstd::math::abs(off.y),
            ca == if off.x >= 0 { off.x } else { -off.x },
            cb == if off.y >= 0 { off.y } else { -off.y },
    ;
    assert(d2 >= 1) by (nonlinear_arith)
        requires
            d2 > l * l,
            0 <= l,
            d2 == ca * ca + cb * cb,
            0 <= ca,
            0 <= cb,
    ;
    let d = sqrt_floor(d2 as nat) as int;
    crate::intsqrt::lemma_root_facts(d2, d);
    assert(l <= d) by (nonlinear_arith)
        requires
            l * l < d2,
            d2 < (d + 1) * (d + 1),
            0 <= l,
            0 <= d,
    ;
    let u = ca * l / d;
    let v = cb * l / d;
    lemma_rescale_band(ca, cb, d2, d, l, u, v);
    let q = confine_spec(p, center, arena_radius, particle_radius).current_position;
    let noff = v_sub(q, center);
    assert(noff.x == scale_toward_zero(off.x, l, d) && noff.y == scale_toward_zero(off.y, l, d));
    assert(noff.x == if off.x >= 0 { u } else { -u });
    assert(noff.y == if off.y >= 0 { v } else { -v });
    assert(dist2(q, center) == u * u + v * v) by (nonlinear_arith)
        requires
            dist2(q, center) == noff.x * noff.x + noff.y * noff.y,
            noff.x == u || noff.x == -u,
            noff.y == v || noff.y == -v,
    ;
    assert(off.x * off.x <= d2 && off.y * off.y <= d2) by (nonlinear_arith)
        requires
            d2 == off.x * off.x + off.y * off.y,
    ;
    crate::vecmath::lemma_component_le_root(off.x, d2, d);
    crate::vecmath::lemma_component_le_root(off.y, d2, d);
    crate::vecmath::lemma_scale_bound(off.x, l, d);
    crate::vecmath::lemma_scale_bound(off.y, l, d);
}

/// Arithmetic core of the separation law. A nonnegative axis `(ca, cb)` of
/// squared length `d2` bracketed by `d` grows by twice the rounded rescale
/// of `h / d` per component; the squared length of the grown axis lies in a
/// band around `L * L` where `L = d + 2h`.
proof fn lemma_grow_band(ca: int, cb: int, d2: int, d: int, h: int, u: int, v: int)
    requires
        0 <= ca,
        0 <= cb,
        d2 == ca * ca + cb * cb,
        1 <= d,
        d * d <= d2,
        d2 < (d + 1) * (d + 1),
        0 <= h,
        u == ca * h / d,
        v == cb * h / d,
    ensures
        ({
            let big = d + 2 * h;
            &&& 0 <= ca + 2 * u <= big
            &&& 0 <= cb + 2 * v <= big
            &&& ((ca + 2 * u) * (ca + 2 * u) + (cb + 2 * v) * (cb + 2 * v)) * (d * d) <= d2 * (big
                * big)
            &&& big * big - 8 * big - 8 < (ca + 2 * u) * (ca + 2 * u) + (cb + 2 * v) * (cb + 2
                * v)
        }),
{
    let big = d + 2 * h;
    let xx = ca + 2 * u;
    let yy = cb + 2 * v;
    vstd::arithmetic::div_mod::lemma_fundamental_div_mod(ca * h, d);
    vstd::arithmetic::div_mod::lemma_fundamental_div_mod(cb * h, d);
    assert(0 <= ca * h && 0 <= cb * h) by (nonlinear_arith)
        requires
            0 <= ca,
            0 <= cb,
            0 <= h,
    ;
    vstd::arithmetic::div_mod::lemma_div_is_ordered(0, ca * h, d);
    vstd::arithmetic::div_mod::lemma_div_is_ordered(0, cb * h, d);
    vstd::arithmetic::div_mod::lemma_div_basics(d);
    assert(u * d <= ca * h < (u + 1) * d) by (nonlinear_arith)
        requires
            ca * h == d * u + (ca * h) % d,
            0 <= (ca * h) % d < d,
    ;
    assert(v * d <= cb * h < (v + 1) * d) by (nonlinear_arith)
        requires
            cb * h == d * v + (cb * h) % d,
            0 <= (cb * h) % d < d,
    ;
    assert(ca <= d && cb <= d) by (nonlinear_arith)
        requires
            ca * ca <= d2,
            cb * cb <= d2,
            d2 < (d + 1) * (d + 1),
            0 <= ca,
            0 <= cb,
            0 <= d,
    ;
    // xx * d <= ca * big, and ca <= d makes xx <= big.
    assert(xx * d <= ca * big && yy * d <= cb * big) by (nonlinear_arith)
        requires
            u * d <= ca * h,
            v * d <= cb * h,
            xx == ca + 2 * u,
            yy == cb + 2 * v,
            big == d + 2 * h,
    ;
    assert(xx <= big && yy <= big) by (nonlinear_arith)
        requires
            xx * d <= ca * big,
            yy * d <= cb * big,
            ca <= d,
            cb <= d,
            1 <= d,
            0 <= big,
            0 <= ca,
            0 <= cb,
    ;
    // Upper bound: square and sum.
    assert((xx * xx + yy * yy) * (d * d) <= d2 * (big * big)) by (nonlinear_arith)
        requires
            0 <= xx * d <= ca * big,
            0 <= yy * d <= cb * big,
            d2 == ca * ca + cb * cb,
            0 <= ca,
            0 <= cb,
            0 <= big,
            0 <= xx,
            0 <= yy,
    ;
    // Lower bound: (xx + 2) * d > ca * big, square, sum, divide by d * d.
    assert((xx + 2) * d > ca * big && (yy + 2) * d > cb * big) by (nonlinear_arith)
        requires
            ca * h < (u + 1) * d,
            cb * h < (v + 1) * d,
            xx == ca + 2 * u,
            yy == cb + 2 * v,
            big == d + 2 * h,
    ;
    assert(((xx + 2) * d) * ((xx + 2) * d) > (ca * big) * (ca * big)) by (nonlinear_arith)
        requires
            (xx + 2) * d > ca * big,
            0 <= ca * big,
    ;
    assert(((yy + 2) * d) * ((yy + 2) * d) > (cb * big) * (cb * big)) by (nonlinear_arith)
        requires
            (yy + 2) * d > cb * big,
            0 <= cb * big,
    ;
    assert(((xx + 2) * d) * ((xx + 2) * d) == ((xx + 2) * (xx + 2)) * (d * d) && ((yy + 2) * d) * (
    (yy + 2) * d) == ((yy + 2) * (yy + 2)) * (d * d) && (ca * big) * (ca * big) == (ca * ca) * (big
        * big) && (cb * big) * (cb * big) == (cb * cb) * (big * big) && ((xx + 2) * (xx + 2) + (yy
        + 2) * (yy + 2)) * (d * d) == ((xx + 2) * (xx + 2)) * (d * d) + ((yy + 2) * (yy + 2)) * (d
        * d) && (ca * ca + cb * cb) * (big * big) == (ca * ca) * (big * big) + (cb * cb) * (big
        * big)) by (nonlinear_arith);
    vstd::arithmetic::mul::lemma_mul_inequality(d * d, d2, big * big);
    assert((d * d) * (big * big) <= d2 * (big * big)) by (nonlinear_arith)
        requires
            d * d <= d2,
            0 <= big,
    ;
    assert(((xx + 2) * (xx + 2) + (yy + 2) * (yy + 2)) * (d * d) > (d * d) * (big * big));
    assert(big * big - 8 * big - 8 < xx * xx + yy * yy) by (nonlinear_arith)
        requires
            ((xx + 2) * (xx + 2) + (yy + 2) * (yy + 2)) * (d * d) > (d * d) * (big * big),
            1 <= d,
            0 <= xx <= big,
            0 <= yy <= big,
    ;
}

/// After one pairwise correction of two overlapping particles, the new
/// squared distance lies in a band around `(2 r) * (2 r)`: the pair is
/// separated to distance `2 r` up to rounding. The upper part of the band
/// is stated for overlaps that have not sunk deeper than half a radius of
/// remaining distance (`dist2 >= r * r`); far deeper overlaps can overshoot,
/// as the rounding error of the integer direction grows.
pub proof fn lemma_collision_separates(a: ParticleSpec, b: ParticleSpec, r: int)
    requires
        0 < r,
        0 < dist2(a.current_position, b.current_position) < 4 * r * r,
    ensures
        ({
            let nd2 = dist2(
                collide_spec(a, b, r).0.current_position,
                collide_spec(a, b, r).1.current_position,
            );
            &&& 4 * r * r - 20 * r - 7 <= nd2
            &&& (r * r <= dist2(a.current_position, b.current_position) ==> nd2 <= 4 * r * r + 8
                * r)
        }),
{
    let axis = v_sub(a.current_position, b.current_position);
    let d2 = norm2(axis);
    let ca = vstd::math::abs(axis.x) as int;
    let cb = vstd::math::abs(axis.y) as int;
    assert(d2 == ca * ca + cb * cb && ca * ca <= d2 && cb * cb <= d2 && axis.x * axis.x <= d2
        && axis.y * axis.y <= d2) by (nonlinear_arith)
        requires
            d2 == axis.x * axis.x + axis.y * axis.y,
            ca == if axis.x >= 0 { axis.x } else { -axis.x },
            cb == if axis.y >= 0 { axis.y } else { -axis.y },
    ;
    let d = sqrt_floor(d2 as nat) as int;
    crate::intsqrt::lemma_root_facts(d2, d);
    assert(d < 2 * r) by (nonlinear_arith)
        requires
            d * d <= d2,
            d2 < 4 * r * r,
            0 <= d,
            0 < r,
    ;
    let h = (2 * r - d) / 2;
    vstd::arithmetic::div_mod::lemma_fundamental_div_mod(2 * r - d, 2);
    assert(0 <= h && (d + 2 * h == 2 * r || d + 2 * h == 2 * r - 1)) by (nonlinear_arith)
        requires
            2 * r - d == 2 * h + (2 * r - d) % 2,
            0 <= (2 * r - d) % 2 < 2,
            0 < d < 2 * r,
    ;
    let big = d + 2 * h;
    let u = ca * h / d;
    let v = cb * h / d;
    lemma_grow_band(ca, cb, d2, d, h, u, v);
    crate::vecmath::lemma_component_le_root(axis.x, d2, d);
    crate::vecmath::lemma_component_le_root(axis.y, d2, d);
    crate::vecmath::lemma_scale_bound(axis.x, h, d);
    crate::vecmath::lemma_scale_bound(axis.y, h, d);
    let a2 = collide_spec(a, b, r).0;
    let b2 = collide_spec(a, b, r).1;
    let naxis = v_sub(a2.current_position, b2.current_position);
    let tx = scale_toward_zero(axis.x, h, d);
    let ty = scale_toward_zero(axis.y, h, d);
    assert(naxis.x == axis.x + 2 * tx && naxis.y == axis.y + 2 * ty);
    assert(tx == if axis.x >= 0 { u } else { -u });
    assert(ty == if axis.y >= 0 { v } else { -v });
    let xx = ca + 2 * u;
    let yy = cb + 2 * v;
    let nd2 = dist2(a2.current_position, b2.current_position);
    assert(nd2 == xx * xx + yy * yy) by (nonlinear_arith)
        requires
            nd2 == naxis.x * naxis.x + naxis.y * naxis.y,
            naxis.x == xx || naxis.x == -xx,
            naxis.y == yy || naxis.y == -yy,
    ;
    // Lower bound: the band floor at big >= 2 r - 1.
    assert(4 * r * r - 20 * r - 7 <= nd2) by (nonlinear_arith)
        requires
            big * big - 8 * big - 8 < nd2,
            2 * r - 1 <= big <= 2 * r,
            0 < r,
    ;
    // Upper bound when the overlap is not too deep: d >= r.
    if r * r <= d2 {
        assert(r <= d) by (nonlinear_arith)
            requires
                r * r <= d2,
                d2 < (d + 1) * (d + 1),
                0 < r,
                0 <= d,
        ;
        assert(nd2 <= 4 * r * r + 8 * r) by (nonlinear_arith)
            requires
                (nd2) * (d * d) <= d2 * (big * big),
                d2 < (d + 1) * (d + 1),
                d * d <= d2,
                r <= d,
                big <= 2 * r,
                0 < r,
                0 <= nd2,
                0 <= big,
    ;
    }
}

/// A pairwise collision correction is symmetric: the componentwise sum of
/// the two positions (twice the midpoint) never changes, and nothing but
/// the current positions changes.
pub proof fn lemma_collision_preserves_midpoint(a: ParticleSpec, b: ParticleSpec, r: int)
    ensures
        v_add(
            collide_spec(a, b, r).0.current_position,
            collide_spec(a, b, r).1.current_position,
        ) == v_add(a.current_position, b.current_position),
        collide_spec(a, b, r).0.old_position == a.old_position,
        collide_spec(a, b, r).1.old_position == b.old_position,
        collide_spec(a, b, r).0.acceleration == a.acceleration,
        collide_spec(a, b, r).1.acceleration == b.acceleration,
        collide_spec(a, b, r).0.color == a.color,
        collide_spec(a, b, r).1.color == b.color,
{
}

/// Two exactly coincident particles separate along the fixed fallback axis
/// to distance exactly `2 * r`: the zero-distance edge case stays finite
/// and well-defined.
pub proof fn lemma_collision_coincident(a: ParticleSpec, b: ParticleSpec, r: int)
    requires
        a.current_position == b.current_position,
        0 < r,
    ensures
        dist2(
            collide_spec(a, b, r).0.current_position,
            collide_spec(a, b, r).1.current_position,
        ) == 4 * r * r,
{
    let axis = v_sub(a.current_position, b.current_position);
    assert(axis.x == 0 && axis.y == 0);
    assert(norm2(axis) == 0) by (nonlinear_arith)
        requires
            axis.x == 0,
            axis.y == 0,
    ;
    assert(0 < 4 * r * r) by (nonlinear_arith)
        requires
            0 < r,
    ;
    let a2 = collide_spec(a, b, r).0;
    let b2 = collide_spec(a, b, r).1;
    assert(a2.current_position.x - b2.current_position.x == 2 * r);
    assert(a2.current_position.y - b2.current_position.y == 0);
    assert(dist2(a2.current_position, b2.current_position) == 4 * r * r) by (nonlinear_arith)
        requires
            a2.current_position.x - b2.current_position.x == 2 * r,
            a2.current_position.y - b2.current_position.y == 0,
            dist2(a2.current_position, b2.current_position) == (a2.current_position.x
                - b2.current_position.x) * (a2.current_position.x - b2.current_position.x) + (
            a2.current_position.y - b2.current_position.y) * (a2.current_position.y
                - b2.current_position.y),
    ;
}

} // verus!
