//! The simulation step and the sub-step scheduler.

use vstd::prelude::*;

use crate::particle::{confine_spec, integrate_spec, ParticleSpec};
use crate::vecmath::{in_box, v_zero, Vec2i};
use crate::world::{collide_pass, World};
use crate::{ACCEL_LIMIT, ARENA_LIMIT, DT_LIMIT, GRAVITY_LIMIT, LEN_LIMIT, POS_LIMIT,
    RADIUS_LIMIT, SETTLED_LIMIT};

verus! {

/// The per-frame simulation configuration, supplied by the external driver:
/// gravity, the arena circle, and the shared particle radius.
#[derive(Clone, Copy)]
pub struct SimConfig {
    pub gravity: Vec2i,
    pub arena_center: Vec2i,
    pub arena_radius: i64,
    pub particle_radius: i64,
}

impl SimConfig {
    /// The ranges every step requires of its configuration.
    pub open spec fn valid(self) -> bool {
        &&& in_box(self.gravity@, GRAVITY_LIMIT as int)
        &&& in_box(self.arena_center@, ARENA_LIMIT as int)
        &&& 0 < self.particle_radius <= RADIUS_LIMIT
        &&& self.particle_radius <= self.arena_radius <= ARENA_LIMIT
    }
}

/// The bounds that hold of every world between steps.
pub open spec fn world_wf(s: Seq<ParticleSpec>) -> bool {
    &&& s.len() <= LEN_LIMIT
    &&& forall|k: int|
        0 <= k < s.len() ==> in_box(#[trigger] s[k].current_position, POS_LIMIT as int) && in_box(
            s[k].old_position,
            POS_LIMIT as int,
        ) && in_box(s[k].acceleration, ACCEL_LIMIT as int)
}

/// One whole sub-step: every particle is integrated under gravity and
/// confined to the arena, and then one collision pass runs over all pairs.
pub open spec fn step_spec(s: Seq<ParticleSpec>, config: SimConfig, dt: int) -> Seq<ParticleSpec> {
    collide_pass(
        s.map_values(
            |p: ParticleSpec|
                confine_spec(
                    integrate_spec(p, config.gravity@, dt),
                    config.arena_center@,
                    config.arena_radius as int,
                    config.particle_radius as int,
                ),
        ),
        config.particle_radius as int,
    )
}

/// `k` sub-steps in sequence.
pub open spec fn steps_spec(s: Seq<ParticleSpec>, config: SimConfig, dt: int, k: nat) -> Seq<
    ParticleSpec,
>
    decreases k,
{
    if k == 0 {
        s
    } else {
        steps_spec(step_spec(s, config, dt), config, dt, (k - 1) as nat)
    }
}

/// The simulation and what the driver needs to draw it.
pub struct GameState {
    pub screen_dimensions: Vec2i,
    pub world: World,
}

impl GameState {
    /// One sub-step of length `delta_time`: integrate and confine every
    /// particle, then resolve all pairwise collisions once.
    pub fn update(&mut self, config: SimConfig, delta_time: i64)
        requires
            config.valid(),
            0 <= delta_time <= DT_LIMIT,
            world_wf(old(self).world@),
        ensures
            final(self).world@ == step_spec(old(self).world@, config, delta_time as int),
            world_wf(final(self).world@),
            final(self).screen_dimensions == old(self).screen_dimensions,
    {
        let n = self.world.particles.len();
        let ghost orig = self.world@;
        let ghost mapped = orig.map_values(
            |p: ParticleSpec|
                confine_spec(
                    integrate_spec(p, config.gravity@, delta_time as int),
                    config.arena_center@,
                    config.arena_radius as int,
                    config.particle_radius as int,
                ),
        );
        let mut i: usize = 0;
        while i < n
            invariant
                0 <= i <= n,
                n == self.world.particles@.len(),
                n == self.world@.len(),
                n == orig.len(),
                mapped == orig.map_values(
                    |p: ParticleSpec|
                        confine_spec(
                            integrate_spec(p, config.gravity@, delta_time as int),
                            config.arena_center@,
                            config.arena_radius as int,
                            config.particle_radius as int,
                        ),
                ),
                config.valid(),
                0 <= delta_time <= DT_LIMIT,
                world_wf(orig),
                forall|k: int| i <= k < n ==> self.world@[k] == orig[k],
                forall|k: int| 0 <= k < i ==> self.world@[k] == mapped[k],
                forall|k: int|
                    0 <= k < i ==> in_box(
                        #[trigger] self.world@[k].current_position,
                        SETTLED_LIMIT as int,
                    ) && in_box(self.world@[k].old_position, POS_LIMIT as int) && self.world@[
                        k
                    ].acceleration == v_zero(),
                self.screen_dimensions == old(self).screen_dimensions,
            decreases n - i,
        {
            let mut p = self.world.particles[i];
            proof {
                assert(p@ == self.world@[i as int]);
                assert(self.world@[i as int] == orig[i as int]);
                assert(in_box(orig[i as int].current_position, POS_LIMIT as int));
            }
            p.update(config.gravity, delta_time);
            p.apply_constraint(config.arena_center, config.arena_radius, config.particle_radius);
            proof {
                crate::world::lemma_view_update(self.world.particles@, i as int, p);
            }
            self.world.particles[i] = p;
            i = i + 1;
        }
        assert(self.world@ =~= mapped);
        self.world.solve_collisions(config.particle_radius);
    }

    /// The sub-step scheduler: runs `substeps` sub-steps of length
    /// `frame_time / substeps`. A paused frame, and a frame with no
    /// sub-steps, are well-defined no-ops.
    pub fn advance_frame(&mut self, config: SimConfig, frame_time: u64, substeps: u64, paused: bool)
        requires
            config.valid(),
            world_wf(old(self).world@),
            substeps > 0 ==> frame_time as int / substeps as int <= DT_LIMIT as int,
        ensures
            paused || substeps == 0 ==> final(self).world@ == old(self).world@,
            !paused && substeps > 0 ==> final(self).world@ == steps_spec(
                old(self).world@,
                config,
                frame_time as int / substeps as int,
                substeps as nat,
            ),
            world_wf(final(self).world@),
            final(self).screen_dimensions == old(self).screen_dimensions,
    {
        if paused || substeps == 0 {
            return ;
        }
        let dt_wide: u64 = frame_time / substeps;
        let delta_time: i64 = dt_wide as i64;
        let ghost orig = self.world@;
        let mut k: u64 = 0;
        while k < substeps
            invariant
                0 <= k <= substeps,
                config.valid(),
                0 <= delta_time <= DT_LIMIT,
                delta_time == frame_time as int / substeps as int,
                world_wf(self.world@),
                steps_spec(orig, config, delta_time as int, substeps as nat) == steps_spec(
                    self.world@,
                    config,
                    delta_time as int,
                    (substeps - k) as nat,
                ),
                self.screen_dimensions == old(self).screen_dimensions,
            decreases substeps - k,
        {
            self.update(config, delta_time);
            k = k + 1;
        }
    }
}

} // verus!
