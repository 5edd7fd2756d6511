//! The world: the ordered collection of particles, spawning, and the full
//! pairwise collision-resolution pass.

use vstd::prelude::*;

use crate::particle::{collide_spec, Particle, ParticleSpec};
use crate::vecmath::{in_box, v_zero, Vec2Spec, Vec2i};
use crate::{LEN_LIMIT, POS_LIMIT, RADIUS_LIMIT, SETTLED_LIMIT};

verus! {

/// All particles of the simulation, in spawn order.
pub struct World {
    pub particles: Vec<Particle>,
}

impl View for World {
    type V = Seq<ParticleSpec>;

    open spec fn view(&self) -> Seq<ParticleSpec> {
        self.particles@.map_values(|p: Particle| p@)
    }
}

/// The model of a freshly spawned particle.
pub open spec fn spawned(position: Vec2Spec, color: u32) -> ParticleSpec {
    ParticleSpec {
        current_position: position,
        old_position: position,
        acceleration: v_zero(),
        color,
    }
}

/// One full collision pass: every unordered pair `(i, j)` with `i < j`, in
/// ascending sequential order, is tested and corrected in place, so later
/// pairs see the corrections of earlier ones.
pub open spec fn collide_pass_from(s: Seq<ParticleSpec>, i: nat, j: nat, r: int) -> Seq<
    ParticleSpec,
>
    decreases s.len() - i, s.len() + 1 - j,
{
    if i >= s.len() {
        s
    } else if j >= s.len() {
        collide_pass_from(s, (i + 1) as nat, (i + 2) as nat, r)
    } else {
        let pair = collide_spec(s[i as int], s[j as int], r);
        collide_pass_from(s.update(i as int, pair.0).update(j as int, pair.1), i, (j + 1) as nat, r)
    }
}

pub open spec fn collide_pass(s: Seq<ParticleSpec>, r: int) -> Seq<ParticleSpec> {
    collide_pass_from(s, 0, 1, r)
}

/// Updating one particle of the vector updates the same slot of the model.
pub(crate) proof fn lemma_view_update(v: Seq<Particle>, i: int, p: Particle)
    requires
        0 <= i < v.len(),
    ensures
        v.update(i, p).map_values(|q: Particle| q@) == v.map_values(|q: Particle| q@).update(
            i,
            p@,
        ),
{
    let lhs = v.update(i, p).map_values(|q: Particle| q@);
    let rhs = v.map_values(|q: Particle| q@).update(i, p@);
    assert(lhs =~= rhs);
}

/// Appending a particle to the vector appends its model.
proof fn lemma_view_push(v: Seq<Particle>, p: Particle)
    ensures
        v.push(p).map_values(|q: Particle| q@) == v.map_values(|q: Particle| q@).push(p@),
{
    let lhs = v.push(p).map_values(|q: Particle| q@);
    let rhs = v.map_values(|q: Particle| q@).push(p@);
    assert(lhs =~= rhs);
}

impl World {
    /// An empty world.
    pub fn new() -> (w: World)
        ensures
            w@.len() == 0,
    {
        World { particles: Vec::new() }
    }

    /// Appends one particle at `position` with zero implicit velocity.
    pub fn spawn(&mut self, position: Vec2i, color: u32)
        ensures
            final(self)@ == old(self)@.push(spawned(position@, color)),
            final(self)@.len() == old(self)@.len() + 1,
    {
        let p = Particle::new(position, color);
        proof {
            lemma_view_push(self.particles@, p);
        }
        self.particles.push(p);
    }

    /// Spawns particles at the given positions and colors until the world
    /// holds `particlesnumber` of them; the caller supplies one position and
    /// color per slot (a driver will usually draw them at random).
    pub fn fill(&mut self, particlesnumber: usize, positions: &Vec<Vec2i>, colors: &Vec<u32>)
        requires
            positions@.len() >= particlesnumber,
            colors@.len() >= particlesnumber,
        ensures
            old(self)@.len() >= particlesnumber ==> final(self)@ == old(self)@,
            old(self)@.len() < particlesnumber ==> final(self)@.len() == particlesnumber,
            forall|k: int|
                0 <= k < old(self)@.len() && k < final(self)@.len() ==> final(self)@[k] == old(
                    self,
                )@[k],
            forall|k: int|
                old(self)@.len() <= k < final(self)@.len() ==> final(self)@[k] == spawned(
                    positions@[k]@,
                    colors@[k],
                ),
    {
        while self.particles.len() < particlesnumber
            invariant
                positions@.len() >= particlesnumber,
                colors@.len() >= particlesnumber,
                old(self)@.len() >= particlesnumber ==> self@ == old(self)@,
                old(self)@.len() < particlesnumber ==> old(self)@.len() <= self@.len()
                    <= particlesnumber,
                forall|k: int|
                    0 <= k < old(self)@.len() && k < self@.len() ==> self@[k] == old(self)@[k],
                forall|k: int|
                    old(self)@.len() <= k < self@.len() ==> self@[k] == spawned(
                        positions@[k]@,
                        colors@[k],
                    ),
                self@.len() == self.particles@.len(),
            decreases particlesnumber - self.particles.len(),
        {
            let idx = self.particles.len();
            let p = Particle::new(positions[idx], colors[idx]);
            proof {
                lemma_view_push(self.particles@, p);
            }
            self.particles.push(p);
        }
    }

    /// The read-only snapshot for rendering: the particles in spawn order.
    pub fn particles(&self) -> (r: &Vec<Particle>)
        ensures
            r@.map_values(|q: Particle| q@) == self@,
    {
        &self.particles
    }

    /// Zeroes every implicit velocity by overwriting each previous position
    /// with the current one (the driver's freeze control).
    pub fn freeze(&mut self)
        ensures
            final(self)@.len() == old(self)@.len(),
            forall|k: int|
                0 <= k < old(self)@.len() ==> final(self)@[k] == (ParticleSpec {
                    old_position: old(self)@[k].current_position,
                    ..old(self)@[k]
                }),
    {
        let n = self.particles.len();
        let mut i: usize = 0;
        while i < n
            invariant
                0 <= i <= n,
                n == self.particles@.len(),
                self@.len() == n,
                old(self)@.len() == n,
                forall|k: int|
                    i <= k < n ==> self@[k] == old(self)@[k],
                forall|k: int|
                    0 <= k < i ==> self@[k] == (ParticleSpec {
                        old_position: old(self)@[k].current_position,
                        ..old(self)@[k]
                    }),
            decreases n - i,
        {
            let mut p = self.particles[i];
            p.old_position = p.current_position;
            proof {
                lemma_view_update(self.particles@, i as int, p);
            }
            self.particles[i] = p;
            i = i + 1;
        }
    }

    /// One full collision pass over all pairs, in ascending order.
    pub fn solve_collisions(&mut self, particle_radius: i64)
        requires
            old(self)@.len() <= LEN_LIMIT,
            0 < particle_radius <= RADIUS_LIMIT,
            forall|k: int|
                0 <= k < old(self)@.len() ==> in_box(
                    #[trigger] old(self)@[k].current_position,
                    SETTLED_LIMIT as int,
                ),
        ensures
            final(self)@ == collide_pass(old(self)@, particle_radius as int),
            final(self)@.len() == old(self)@.len(),
            forall|k: int|
                0 <= k < final(self)@.len() ==> in_box(
                    #[trigger] final(self)@[k].current_position,
                    POS_LIMIT as int,
                ),
            forall|k: int|
                0 <= k < final(self)@.len() ==> final(self)@[k].old_position == old(
                    self,
                )@[k].old_position && final(self)@[k].acceleration == old(self)@[k].acceleration
                    && final(self)@[k].color == old(self)@[k].color,
    {
        let n = self.particles.len();
        let ghost orig = self@;
        let ghost rr = particle_radius as int;
        let mut i: usize = 0;
        while i < n
            invariant
                0 <= i <= n,
                n == self.particles@.len(),
                n == self@.len(),
                n == orig.len(),
                n <= LEN_LIMIT,
                0 < particle_radius <= RADIUS_LIMIT,
                rr == particle_radius as int,
                collide_pass_from(self@, i as nat, (i + 1) as nat, rr) == collide_pass_from(
                    orig,
                    0,
                    1,
                    rr,
                ),
                forall|k: int|
                    0 <= k < n ==> in_box(
                        #[trigger] self@[k].current_position,
                        SETTLED_LIMIT + (i as int * (n as int) + i + 1) * (RADIUS_LIMIT as int),
                    ),
                forall|k: int|
                    0 <= k < n ==> self@[k].old_position == orig[k].old_position
                        && self@[k].acceleration == orig[k].acceleration && self@[k].color
                        == orig[k].color,
            decreases n - i,
        {
            let mut j: usize = i + 1;
            while j < n
                invariant
                    0 <= i < n,
                    i + 1 <= j <= n,
                    n == self.particles@.len(),
                    n == self@.len(),
                    n == orig.len(),
                    n <= LEN_LIMIT,
                    0 < particle_radius <= RADIUS_LIMIT,
                    rr == particle_radius as int,
                    collide_pass_from(self@, i as nat, j as nat, rr) == collide_pass_from(
                        orig,
                        0,
                        1,
                        rr,
                    ),
                    forall|k: int|
                        0 <= k < n ==> in_box(
                            #[trigger] self@[k].current_position,
                            SETTLED_LIMIT + (i as int * (n as int) + j) * (RADIUS_LIMIT as int),
                        ),
                    forall|k: int|
                        0 <= k < n ==> self@[k].old_position == orig[k].old_position
                            && self@[k].acceleration == orig[k].acceleration && self@[k].color
                            == orig[k].color,
                decreases n - j,
            {
                proof {
                    assert(SETTLED_LIMIT + (i as int * (n as int) + j) * (RADIUS_LIMIT as int)
                        <= POS_LIMIT as int) by (nonlinear_arith)
                        requires
                            0 <= i < n,
                            0 <= j <= n,
                            n <= 65536int,
                            SETTLED_LIMIT == 2097152i64,
                            RADIUS_LIMIT == 1024i64,
                            POS_LIMIT == 8796093022208i64,
                    ;
                }
                let mut a = self.particles[i];
                let mut b = self.particles[j];
                a.check_collision(&mut b, particle_radius);
                proof {
                    lemma_view_update(self.particles@, i as int, a);
                    lemma_view_update(self.particles@.update(i as int, a), j as int, b);
                    assert((i as int * (n as int) + j) * (RADIUS_LIMIT as int) + RADIUS_LIMIT
                        == (i as int * (n as int) + (j + 1)) * (RADIUS_LIMIT as int))
                        by (nonlinear_arith);
                }
                self.particles[i] = a;
                self.particles[j] = b;
                assert(collide_pass_from(self@, i as nat, (j + 1) as nat, rr) == collide_pass_from(
                    orig,
                    0,
                    1,
                    rr,
                ));
                j = j + 1;
            }
            proof {
                assert(collide_pass_from(self@, i as nat, n as nat, rr) == collide_pass_from(
                    self@,
                    (i + 1) as nat,
                    (i + 2) as nat,
                    rr,
                ));
                assert((i as int * (n as int) + n) * (RADIUS_LIMIT as int)
                    <= ((i + 1) as int * (n as int) + i + 2) * (RADIUS_LIMIT as int))
                    by (nonlinear_arith)
                    requires
                        0 <= i < n,
                        RADIUS_LIMIT == 1024i64,
                ;
            }
            i = i + 1;
        }
        proof {
            assert(collide_pass_from(self@, n as nat, (n + 1) as nat, rr) == self@);
            assert(forall|k: int|
                0 <= k < n ==> in_box(
                    #[trigger] self@[k].current_position,
                    POS_LIMIT as int,
                )) by {
                assert(SETTLED_LIMIT + (n as int * (n as int) + n + 1) * (RADIUS_LIMIT as int)
                    <= POS_LIMIT as int) by (nonlinear_arith)
                    requires
                        0 <= n <= 65536int,
                        SETTLED_LIMIT == 2097152i64,
                        RADIUS_LIMIT == 1024i64,
                        POS_LIMIT == 8796093022208i64,
                ;
            }
        }
    }
}

} // verus!
