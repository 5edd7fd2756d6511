//! Particle state and the per-particle physics operations: Verlet
//! integration, the circular boundary constraint, and pairwise positional
//! collision correction.

use vstd::prelude::*;

use crate::intsqrt::{isqrt128, lemma_root_facts, sqrt_floor};
use crate::vecmath::{
    in_box, lemma_component_le_root, lemma_scale_bound, norm2, scale_component, scale_toward_zero,
    v_add, v_scale, v_sub, v_zero, Vec2Spec, Vec2i,
};
use crate::{ACCEL_LIMIT, ARENA_LIMIT, CONFINE_LIMIT, DT_LIMIT, GRAVITY_LIMIT, INTEGRATE_LIMIT,
    KICK_LIMIT, POS_LIMIT, RADIUS_LIMIT};

verus! {

/// One particle of the simulation. `old_position` holds the position from
/// the prior integration (or the spawn position before the first one), so
/// `current_position - old_position` is the implicit velocity.
#[derive(Clone, Copy, PartialEq, Eq, Structural, Debug)]
pub struct Particle {
    pub current_position: Vec2i,
    pub old_position: Vec2i,
    pub acceleration: Vec2i,
    pub color: u32,
}

/// Mathematical model of a particle: unbounded integer coordinates.
pub ghost struct ParticleSpec {
    pub current_position: Vec2Spec,
    pub old_position: Vec2Spec,
    pub acceleration: Vec2Spec,
    pub color: u32,
}

impl View for Particle {
    type V = ParticleSpec;

    open spec fn view(&self) -> ParticleSpec {
        ParticleSpec {
            current_position: self.current_position@,
            old_position: self.old_position@,
            acceleration: self.acceleration@,
            color: self.color,
        }
    }
}

/// The same particle moved to position `q`.
pub open spec fn with_position(p: ParticleSpec, q: Vec2Spec) -> ParticleSpec {
    ParticleSpec {
        current_position: q,
        old_position: p.old_position,
        acceleration: p.acceleration,
        color: p.color,
    }
}

/// One Verlet integration with gravity `g` over sub-step delta `dt`:
/// the implicit velocity `current - old` carries over, the accumulated
/// acceleration plus gravity acts for `dt * dt`, and the accumulator resets.
pub open spec fn integrate_spec(p: ParticleSpec, g: Vec2Spec, dt: int) -> ParticleSpec {
    let acc = v_add(p.acceleration, g);
    ParticleSpec {
        current_position: v_add(
            v_add(p.current_position, v_sub(p.current_position, p.old_position)),
            v_scale(acc, dt * dt),
        ),
        old_position: p.current_position,
        acceleration: v_zero(),
        color: p.color,
    }
}

/// The boundary constraint: a particle whose center sits farther than
/// `arena_radius - particle_radius` from `center` is pulled back onto that
/// circle along its offset direction (componentwise rounding toward zero).
/// A particle exactly on the center is never outside the allowed circle, so
/// the degenerate zero-length direction never needs normalizing here.
pub open spec fn confine_spec(
    p: ParticleSpec,
    center: Vec2Spec,
    arena_radius: int,
    particle_radius: int,
) -> ParticleSpec {
    let off = v_sub(p.current_position, center);
    let l = arena_radius - particle_radius;
    let d2 = norm2(off);
    if d2 <= l * l {
        p
    } else {
        let d = sqrt_floor(d2 as nat) as int;
        let pulled = Vec2Spec {
            x: scale_toward_zero(off.x, l, d),
            y: scale_toward_zero(off.y, l, d),
        };
        with_position(p, v_add(center, pulled))
    }
}

/// Pairwise collision resolution. Particles of radius `r` overlap when their
/// squared distance is below `(2r)^2`; each is then pushed half the
/// penetration along the axis between them, in opposite directions. Two
/// exactly coincident particles separate along the x axis.
pub open spec fn collide_spec(a: ParticleSpec, b: ParticleSpec, r: int) -> (
    ParticleSpec,
    ParticleSpec,
) {
    let axis = v_sub(a.current_position, b.current_position);
    let d2 = norm2(axis);
    if d2 >= 4 * r * r {
        (a, b)
    } else if d2 == 0 {
        let push = Vec2Spec { x: r, y: 0 };
        (
            with_position(a, v_add(a.current_position, push)),
            with_position(b, v_sub(b.current_position, push)),
        )
    } else {
        let d = sqrt_floor(d2 as nat) as int;
        let h = (2 * r - d) / 2;
        let push = Vec2Spec {
            x: scale_toward_zero(axis.x, h, d),
            y: scale_toward_zero(axis.y, h, d),
        };
        (
            with_position(a, v_add(a.current_position, push)),
            with_position(b, v_sub(b.current_position, push)),
        )
    }
}

impl Particle {
    /// A freshly spawned particle: zero implicit velocity and acceleration.
    pub fn new(position: Vec2i, color: u32) -> (p: Self)
        ensures
            p@ == (ParticleSpec {
                current_position: position@,
                old_position: position@,
                acceleration: v_zero(),
                color,
            }),
    {
        Self {
            current_position: position,
            old_position: position,
            acceleration: Vec2i::zero(),
            color,
        }
    }

    /// Adds `acc` to the accumulated acceleration.
    pub fn accelerate(&mut self, acc: Vec2i)
        requires
            i64::MIN <= old(self).acceleration.x + acc.x <= i64::MAX,
            i64::MIN <= old(self).acceleration.y + acc.y <= i64::MAX,
        ensures
            final(self)@ == (ParticleSpec {
                acceleration: v_add(old(self)@.acceleration, acc@),
                ..old(self)@
            }),
    {
        self.acceleration = Vec2i {
            x: self.acceleration.x + acc.x,
            y: self.acceleration.y + acc.y,
        };
    }

    /// Adds gravity to the accumulated acceleration; the driver decides the
    /// gravity vector (and any live flips of it) and passes it in.
    pub fn apply_gravity(&mut self, gravity: Vec2i)
        requires
            i64::MIN <= old(self).acceleration.x + gravity.x <= i64::MAX,
            i64::MIN <= old(self).acceleration.y + gravity.y <= i64::MAX,
        ensures
            final(self)@ == (ParticleSpec {
                acceleration: v_add(old(self)@.acceleration, gravity@),
                ..old(self)@
            }),
    {
        self.accelerate(gravity);
    }

    /// One Verlet integration: applies gravity, then advances the position
    /// by the implicit velocity plus `acceleration * dt * dt`, remembers the
    /// previous position, and resets the accumulator.
    pub fn update(&mut self, gravity: Vec2i, delta_time: i64)
        requires
            in_box(old(self)@.current_position, POS_LIMIT as int),
            in_box(old(self)@.old_position, POS_LIMIT as int),
            in_box(old(self)@.acceleration, ACCEL_LIMIT as int),
            in_box(gravity@, GRAVITY_LIMIT as int),
            0 <= delta_time <= DT_LIMIT,
        ensures
            final(self)@ == integrate_spec(old(self)@, gravity@, delta_time as int),
            in_box(final(self)@.current_position, INTEGRATE_LIMIT as int),
    {
        let velocity_x: i64 = self.current_position.x - self.old_position.x;
        let velocity_y: i64 = self.current_position.y - self.old_position.y;
        self.apply_gravity(gravity);
        let ax: i64 = self.acceleration.x;
        let ay: i64 = self.acceleration.y;
        assert(-KICK_LIMIT <= ax * delta_time <= KICK_LIMIT
            && -KICK_LIMIT <= (ax * delta_time) * delta_time <= KICK_LIMIT) by (nonlinear_arith)
            requires
                -(ACCEL_LIMIT + GRAVITY_LIMIT) <= ax <= ACCEL_LIMIT + GRAVITY_LIMIT,
                0 <= delta_time <= DT_LIMIT,
                ACCEL_LIMIT == 1048576i64,
                GRAVITY_LIMIT == 65536i64,
                DT_LIMIT == 64i64,
                KICK_LIMIT == (ACCEL_LIMIT + GRAVITY_LIMIT) * DT_LIMIT * DT_LIMIT,
        ;
        assert(-KICK_LIMIT <= ay * delta_time <= KICK_LIMIT
            && -KICK_LIMIT <= (ay * delta_time) * delta_time <= KICK_LIMIT) by (nonlinear_arith)
            requires
                -(ACCEL_LIMIT + GRAVITY_LIMIT) <= ay <= ACCEL_LIMIT + GRAVITY_LIMIT,
                0 <= delta_time <= DT_LIMIT,
                ACCEL_LIMIT == 1048576i64,
                GRAVITY_LIMIT == 65536i64,
                DT_LIMIT == 64i64,
                KICK_LIMIT == (ACCEL_LIMIT + GRAVITY_LIMIT) * DT_LIMIT * DT_LIMIT,
        ;
        assert((ax * delta_time) * delta_time == ax * (delta_time * delta_time)
            && (ay * delta_time) * delta_time == ay * (delta_time * delta_time))
            by (nonlinear_arith);
        self.old_position = self.current_position;
        self.current_position = Vec2i {
            x: self.current_position.x + velocity_x + ax * delta_time * delta_time,
            y: self.current_position.y + velocity_y + ay * delta_time * delta_time,
        };
        self.acceleration = Vec2i::zero();
    }

    /// The boundary constraint: pulls the particle back inside the arena
    /// circle if it escaped.
    pub fn apply_constraint(&mut self, constra_pos: Vec2i, arena_radius: i64, particle_radius: i64)
        requires
            in_box(old(self)@.current_position, CONFINE_LIMIT as int),
            in_box(constra_pos@, ARENA_LIMIT as int),
            0 < particle_radius <= RADIUS_LIMIT,
            particle_radius <= arena_radius <= ARENA_LIMIT,
        ensures
            final(self)@ == confine_spec(
                old(self)@,
                constra_pos@,
                arena_radius as int,
                particle_radius as int,
            ),
            in_box(
                v_sub(final(self)@.current_position, constra_pos@),
                arena_radius - particle_radius,
            ),
    {
        let off_x: i64 = self.current_position.x - constra_pos.x;
        let off_y: i64 = self.current_position.y - constra_pos.y;
        let l: i64 = arena_radius - particle_radius;
        assert(0 <= (off_x as int) * (off_x as int) + (off_y as int) * (off_y as int)
            <= 0x80000000000000000000000000i128
            && 0 <= (off_x as int) * (off_x as int)
            && 0 <= (off_y as int) * (off_y as int)) by (nonlinear_arith)
            requires
                -0x8000000000000i64 <= off_x <= 0x8000000000000i64,
                -0x8000000000000i64 <= off_y <= 0x8000000000000i64,
        ;
        let d2: i128 = (off_x as i128) * (off_x as i128) + (off_y as i128) * (off_y as i128);
        assert(d2 == norm2(v_sub(old(self)@.current_position, constra_pos@)));
        assert(0 <= (l as int) * (l as int) <= 0x10000000000i128) by (nonlinear_arith)
            requires
                0 <= l <= 0x100000i64,
        ;
        if d2 > (l as i128) * (l as i128) {
            let d_root: u128 = isqrt128(d2 as u128);
            proof {
                assert(d2 as u128 as nat == d2 as nat);
                lemma_root_facts(d2 as int, d_root as int);
                assert(d_root <= 0x10000000000000u128) by (nonlinear_arith)
                    requires
                        (d_root as int) * (d_root as int) <= 0x80000000000000000000000000i128,
                        0 <= d_root,
                ;
                lemma_component_le_root(off_x as int, d2 as int, d_root as int);
                lemma_component_le_root(off_y as int, d2 as int, d_root as int);
                lemma_scale_bound(off_x as int, l as int, d_root as int);
                lemma_scale_bound(off_y as int, l as int, d_root as int);
            }
            let d: i64 = d_root as i64;
            let pulled_x: i64 = scale_component(off_x, l, d);
            let pulled_y: i64 = scale_component(off_y, l, d);
            self.current_position = Vec2i {
                x: constra_pos.x + pulled_x,
                y: constra_pos.y + pulled_y,
            };
        } else {
            proof {
                assert(d2 < ((l as int) + 1) * ((l as int) + 1)) by (nonlinear_arith)
                    requires
                        d2 <= (l as int) * (l as int),
                        0 <= l,
                ;
                lemma_component_le_root(off_x as int, d2 as int, l as int);
                lemma_component_le_root(off_y as int, d2 as int, l as int);
            }
        }
    }

    /// Tests this particle against `other` and pushes both apart when they
    /// overlap. Only the current positions change, each by at most
    /// `particle_radius` per component.
    pub fn check_collision(&mut self, other: &mut Particle, particle_radius: i64)
        requires
            in_box(old(self)@.current_position, POS_LIMIT as int),
            in_box(old(other)@.current_position, POS_LIMIT as int),
            0 < particle_radius <= RADIUS_LIMIT,
        ensures
            final(self)@ == collide_spec(old(self)@, old(other)@, particle_radius as int).0,
            final(other)@ == collide_spec(old(self)@, old(other)@, particle_radius as int).1,
            in_box(
                v_sub(final(self)@.current_position, old(self)@.current_position),
                particle_radius as int,
            ),
            in_box(
                v_sub(final(other)@.current_position, old(other)@.current_position),
                particle_radius as int,
            ),
    {
        let axis_x: i64 = self.current_position.x - other.current_position.x;
        let axis_y: i64 = self.current_position.y - other.current_position.y;
        assert(0 <= (axis_x as int) * (axis_x as int) + (axis_y as int) * (axis_y as int)
            <= 0x800000000000000000000000i128
            && 0 <= (axis_x as int) * (axis_x as int)
            && 0 <= (axis_y as int) * (axis_y as int)) by (nonlinear_arith)
            requires
                -0x200000000000i64 <= axis_x <= 0x200000000000i64,
                -0x200000000000i64 <= axis_y <= 0x200000000000i64,
        ;
        let d2: i128 = (axis_x as i128) * (axis_x as i128) + (axis_y as i128) * (axis_y as i128);
        assert(d2 == norm2(v_sub(old(self)@.current_position, old(other)@.current_position)));
        assert(0 <= 4 * (particle_radius as int) * (particle_radius as int) <= 0x400000i128
            && 0 <= (particle_radius as int) * (particle_radius as int)
            && 4 * (particle_radius as int) <= 4096i128) by (nonlinear_arith)
            requires
                0 < particle_radius <= 1024i64,
        ;
        let r2: i128 = 4 * (particle_radius as i128) * (particle_radius as i128);
        if d2 >= r2 {
            return ;
        }
        if d2 == 0 {
            self.current_position = Vec2i {
                x: self.current_position.x + particle_radius,
                y: self.current_position.y,
            };
            other.current_position = Vec2i {
                x: other.current_position.x - particle_radius,
                y: other.current_position.y,
            };
            return ;
        }
        let d_root: u128 = isqrt128(d2 as u128);
        proof {
            assert(d2 as u128 as nat == d2 as nat);
            lemma_root_facts(d2 as int, d_root as int);
            assert(d_root < 2 * particle_radius) by (nonlinear_arith)
                requires
                    (d_root as int) * (d_root as int) <= d2,
                    d2 < 4 * (particle_radius as int) * (particle_radius as int),
                    0 < particle_radius,
                    0 <= d_root,
            ;
            lemma_component_le_root(axis_x as int, d2 as int, d_root as int);
            lemma_component_le_root(axis_y as int, d2 as int, d_root as int);
        }
        let d: i64 = d_root as i64;
        let half: i64 = (((2 * particle_radius - d) as u64) / 2) as i64;
        proof {
            assert(half == (2 * particle_radius - d) / 2);
            lemma_scale_bound(axis_x as int, half as int, d as int);
            lemma_scale_bound(axis_y as int, half as int, d as int);
        }
        let push_x: i64 = scale_component(axis_x, half, d);
        let push_y: i64 = scale_component(axis_y, half, d);
        self.current_position = Vec2i {
            x: self.current_position.x + push_x,
            y: self.current_position.y + push_y,
        };
        other.current_position = Vec2i {
            x: other.current_position.x - push_x,
            y: other.current_position.y - push_y,
        };
    }
}

} // verus!
