use vstd::prelude::*;

use vstd::arithmetic::mul::{lemma_mul_inequality, lemma_mul_is_distributive_add_other_way};

use crate::collider::{
    count_rows, lemma_count_rows_bound, lemma_count_rows_split, thread_collide, CollisionPolicy,
};
use crate::counter::CollisionCounter;
use crate::mover::thread_main;
use crate::particle::{in_bounds, Particle};
use crate::partition::{
    chunk_bounds, collision_covered, covered_upto, lemma_chunk_wf, lemma_collision_covered_bound,
};

verus! {

/// A worker budget that cannot be dispatched.
#[derive(Debug, Copy, Clone, PartialEq, Eq, Structural)]
pub enum ConfigError {
    /// A pass was asked to run with no workers at all.
    NoWorkers,
    /// More workers than particles: some chunk would be empty.
    TooManyWorkers,
}

/// What one movement pass can do to the collection: it keeps the length and
/// every identity, and leaves every particle inside the domain.
pub open spec fn movement_successor(pre: Seq<Particle>, post: Seq<Particle>) -> bool {
    &&& post.len() == pre.len()
    &&& forall|k: int| 0 <= k < pre.len() ==> (#[trigger] post[k].id) == pre[k].id
    &&& forall|k: int| 0 <= k < pre.len() ==> in_bounds(#[trigger] post[k])
}

/// The sum of the collision counts of the states reached after rounds
/// `1..=t`, each counted over the covered prefix under the policy.
pub open spec fn sum_round_counts(
    states: Seq<Seq<Particle>>,
    t: int,
    covered: int,
    pol: CollisionPolicy,
) -> nat
    decreases t,
{
    if t <= 0 {
        0
    } else {
        sum_round_counts(states, t - 1, covered, pol) + count_rows(states[t], 0, covered, pol)
    }
}

/// Appending a later state does not change the sum over earlier rounds.
proof fn lemma_sum_round_counts_push(
    states: Seq<Seq<Particle>>,
    x: Seq<Particle>,
    t: int,
    covered: int,
    pol: CollisionPolicy,
)
    requires
        0 <= t < states.len(),
    ensures
        sum_round_counts(states.push(x), t, covered, pol) == sum_round_counts(
            states,
            t,
            covered,
            pol,
        ),
    decreases t,
{
    if t > 0 {
        lemma_sum_round_counts_push(states, x, t - 1, covered, pol);
        assert(states.push(x)[t] == states[t]);
    }
}

/// The interleaved mode's history: `states` starts at `pre`, advances by one
/// movement pass per round, ends at `post` after `rounds` rounds, and
/// `added` — what the interleaved mode put onto the never-reset counter — is
/// the sum of the per-round collision counts, each of its own round's
/// post-movement state over the covered prefix.
pub open spec fn interleaved_history(
    states: Seq<Seq<Particle>>,
    pre: Seq<Particle>,
    post: Seq<Particle>,
    rounds: int,
    covered: int,
    pol: CollisionPolicy,
    added: int,
) -> bool {
    &&& states.len() == rounds + 1
    &&& states[0] == pre
    &&& states[rounds] == post
    &&& forall|t: int| 0 <= t < rounds ==> movement_successor(#[trigger] states[t], states[t + 1])
    &&& added == sum_round_counts(states, rounds, covered, pol)
}

/// The orchestrator: it owns the particle collection and the shared collision
/// counter, and drives the movement, collision and interleaved passes by
/// splitting the collection over a worker budget.
pub struct ParticleSystem {
    pub particles: Vec<Particle>,
    pub collision_counter: CollisionCounter,
}

impl ParticleSystem {
    /// Identities are pinned to creation order: the particle at position `k`
    /// carries identity `k`, and no pass ever changes an identity.
    pub open spec fn wf(&self) -> bool {
        forall|k: int| 0 <= k < self.particles@.len() ==> (#[trigger] self.particles@[k].id) == k
    }

    pub fn new() -> (sys: ParticleSystem)
        ensures
            sys.particles@.len() == 0,
            sys.collision_counter.total == 0,
            sys.wf(),
    {
        ParticleSystem { particles: Vec::new(), collision_counter: CollisionCounter::new() }
    }

    /// Append a particle; its identity must be the position it will occupy.
    pub fn push_particle(&mut self, p: Particle)
        requires
            p.id == old(self).particles@.len(),
        ensures
            final(self).particles@ == old(self).particles@.push(p),
            final(self).collision_counter == old(self).collision_counter,
            old(self).wf() ==> final(self).wf(),
    {
        self.particles.push(p);
    }

    /// The movement pass: the collection is split into `thread_count`
    /// contiguous chunks (the remainder of the truncating division is folded
    /// into the last chunk) and every chunk is walked `num_iterations` times
    /// by the movement worker. A worker budget of zero, or one larger than
    /// the collection, is rejected before anything is dispatched.
    pub fn move_particles_loop(&mut self, num_iterations: u32, thread_count: usize) -> (r: Result<
        (),
        ConfigError,
    >)
        ensures
            final(self).particles@.len() == old(self).particles@.len(),
            final(self).collision_counter == old(self).collision_counter,
            forall|k: int|
                0 <= k < old(self).particles@.len() ==> (#[trigger] final(self).particles@[k].id)
                    == old(self).particles@[k].id,
            old(self).wf() ==> final(self).wf(),
            thread_count == 0 ==> r == Err::<(), ConfigError>(ConfigError::NoWorkers),
            thread_count > old(self).particles@.len() ==> r == Err::<(), ConfigError>(
                ConfigError::TooManyWorkers,
            ),
            1 <= thread_count <= old(self).particles@.len() ==> r == Ok::<(), ConfigError>(()),
            r is Err ==> final(self).particles@ == old(self).particles@,
            r is Ok && num_iterations > 0 ==> forall|k: int|
                0 <= k < final(self).particles@.len() ==> in_bounds(
                    #[trigger] final(self).particles@[k],
                ),
    {
        let n = self.particles.len();
        if thread_count == 0 {
            return Err(ConfigError::NoWorkers);
        }
        if thread_count > n {
            return Err(ConfigError::TooManyWorkers);
        }
        let ghost orig = self.particles@;
        let ghost orig_counter = self.collision_counter;
        let mut k: usize = 0;
        while k < thread_count
            invariant
                1 <= thread_count <= n,
                k <= thread_count,
                n == self.particles@.len(),
                orig.len() == n,
                self.collision_counter == orig_counter,
                forall|j: int|
                    0 <= j < n ==> (#[trigger] self.particles@[j].id) == orig[j].id,
                forall|j: int|
                    covered_upto(n as int, thread_count as int, k as int) <= j < n ==> (
                    #[trigger] self.particles@[j]) == orig[j],
                num_iterations > 0 ==> forall|j: int|
                    0 <= j < covered_upto(n as int, thread_count as int, k as int) ==> in_bounds(
                        #[trigger] self.particles@[j],
                    ),
            decreases thread_count - k,
        {
            let (lo, hi) = chunk_bounds(n, thread_count, k);
            proof {
                lemma_chunk_wf(n as int, thread_count as int, k as int);
            }
            thread_main(&mut self.particles, lo, hi, num_iterations);
            k = k + 1;
        }
        Ok(())
    }

    /// The collision pass: a snapshot of the collection is taken, the index
    /// range is split into `thread_count` ranges of `n / thread_count`
    /// positions (a tail remainder is left to no range), every range is
    /// counted by the collision worker against the whole snapshot, and the
    /// counts accumulate into the shared counter, which is not reset first.
    /// The result is the counter's new running total.
    pub fn collide_particles(&mut self, thread_count: usize, pol: CollisionPolicy) -> (r: Result<
        u64,
        ConfigError,
    >)
        requires
            old(self).wf(),
            old(self).collision_counter.total + old(self).particles@.len() * old(
                self,
            ).particles@.len() <= u64::MAX,
        ensures
            final(self).particles@ == old(self).particles@,
            final(self).wf(),
            thread_count == 0 ==> r == Err::<u64, ConfigError>(ConfigError::NoWorkers),
            thread_count > old(self).particles@.len() ==> r == Err::<u64, ConfigError>(
                ConfigError::TooManyWorkers,
            ),
            r is Err ==> final(self).collision_counter == old(self).collision_counter,
            1 <= thread_count <= old(self).particles@.len() ==> {
                &&& final(self).collision_counter.total == old(self).collision_counter.total
                    + count_rows(
                    old(self).particles@,
                    0,
                    collision_covered(old(self).particles@.len() as int, thread_count as int),
                    pol,
                )
                &&& r == Ok::<u64, ConfigError>(final(self).collision_counter.total)
            },
    {
        let n = self.particles.len();
        if thread_count == 0 {
            return Err(ConfigError::NoWorkers);
        }
        if thread_count > n {
            return Err(ConfigError::TooManyWorkers);
        }
        proof {
            lemma_collision_covered_bound(n as int, thread_count as int);
        }
        let snapshot = self.particles.clone();
        proof {
            assert(snapshot@ =~= self.particles@);
        }
        let q = n / thread_count;
        let ghost s = self.particles@;
        let ghost orig_counter = self.collision_counter;
        let mut k: usize = 0;
        while k < thread_count
            invariant
                1 <= thread_count <= n,
                k <= thread_count,
                q == n as int / thread_count as int,
                n == self.particles@.len(),
                s == self.particles@,
                snapshot@ == s,
                self.wf(),
                orig_counter.total + n * n <= u64::MAX,
                n as int / thread_count as int >= 1,
                thread_count as int * q as int <= n as int,
                self.collision_counter.total == orig_counter.total + count_rows(
                    s,
                    0,
                    k as int * q as int,
                    pol,
                ),
            decreases thread_count - k,
        {
            proof {
                lemma_mul_inequality(k as int + 1, thread_count as int, q as int);
                assert((k + 1) * q == k * q + q) by (nonlinear_arith);
                assert(k * q >= 0) by (nonlinear_arith)
                    requires
                        k >= 0,
                        q >= 0,
                ;
                lemma_mul_inequality(k as int, thread_count as int, q as int);
                assert(k as int * q as int + q as int <= n as int);
                lemma_count_rows_split(s, 0, k as int * q as int, k as int * q as int + q as int, pol);
                lemma_count_rows_bound(s, 0, k as int * q as int + q as int, pol);
                lemma_mul_inequality(k as int * q as int + q as int, n as int, n as int);
                lemma_count_rows_bound(s, k as int * q as int, k as int * q as int + q as int, pol);
                lemma_mul_inequality(q as int, n as int, n as int);
            }
            let lo = k * q;
            let hi = lo + q;
            let local = thread_collide(&snapshot, lo, hi, pol);
            self.collision_counter.add(local);
            k = k + 1;
        }
        proof {
            assert(thread_count as int * q as int == collision_covered(
                n as int,
                thread_count as int,
            ));
        }
        Ok(self.collision_counter.get())
    }

    /// One round of the interleaved mode: a single movement walk over the
    /// whole collection, then a collision pass against a snapshot taken after
    /// that movement completed. The counter is not reset between rounds: it
    /// grows by exactly the policy's count of the round's post-movement
    /// state, and that per-round count is returned.
    pub fn simulation_round(
        &mut self,
        num_threads_movement: usize,
        num_threads_collision: usize,
        pol: CollisionPolicy,
    ) -> (r: u64)
        requires
            old(self).wf(),
            1 <= num_threads_movement <= old(self).particles@.len(),
            1 <= num_threads_collision <= old(self).particles@.len(),
            old(self).collision_counter.total + old(self).particles@.len() * old(
                self,
            ).particles@.len() <= u64::MAX,
        ensures
            final(self).wf(),
            final(self).particles@.len() == old(self).particles@.len(),
            forall|k: int|
                0 <= k < final(self).particles@.len() ==> in_bounds(
                    #[trigger] final(self).particles@[k],
                ),
            final(self).collision_counter.total == old(self).collision_counter.total + r,
            r == count_rows(
                final(self).particles@,
                0,
                collision_covered(
                    old(self).particles@.len() as int,
                    num_threads_collision as int,
                ),
                pol,
            ),
    {
        let before = self.collision_counter.get();
        let moved = self.move_particles_loop(1, num_threads_movement);
        match moved {
            Ok(()) => {},
            Err(_) => {
                proof {
                    assert(false);
                }
            },
        }
        let counted = self.collide_particles(num_threads_collision, pol);
        match counted {
            Ok(total) => total - before,
            Err(_) => {
                proof {
                    assert(false);
                }
                0
            },
        }
    }

    /// The interleaved mode: `num_iterations` rounds, each a movement pass
    /// with `num_threads_movement` workers of the budget followed by a
    /// collision pass with the remaining workers, against a snapshot taken
    /// after that round's movement. The counter is never reset between
    /// rounds, so the result is the running sum of every round's count.
    pub fn move_and_collide_particles(
        &mut self,
        num_iterations: u32,
        num_threads_total: usize,
        num_threads_movement: usize,
        pol: CollisionPolicy,
    ) -> (r: Result<u64, ConfigError>)
        requires
            old(self).wf(),
            old(self).collision_counter.total + num_iterations * (old(self).particles@.len() * old(
                self,
            ).particles@.len()) <= u64::MAX,
        ensures
            final(self).wf(),
            final(self).particles@.len() == old(self).particles@.len(),
            num_threads_movement == 0 || num_threads_movement >= num_threads_total ==> r == Err::<
                u64,
                ConfigError,
            >(ConfigError::NoWorkers),
            (1 <= num_threads_movement && num_threads_movement < num_threads_total && (
            num_threads_movement > old(self).particles@.len() || num_threads_total
                - num_threads_movement > old(self).particles@.len())) ==> r == Err::<
                u64,
                ConfigError,
            >(ConfigError::TooManyWorkers),
            (1 <= num_threads_movement && num_threads_movement < num_threads_total
                && num_threads_movement <= old(self).particles@.len() && num_threads_total
                - num_threads_movement <= old(self).particles@.len()) ==> r is Ok,
            r is Err ==> final(self).particles@ == old(self).particles@
                && final(self).collision_counter == old(self).collision_counter,
            r is Ok ==> final(self).collision_counter.total >= old(self).collision_counter.total
                && r == Ok::<u64, ConfigError>(final(self).collision_counter.total),
            r is Ok && num_iterations > 0 ==> forall|k: int|
                0 <= k < final(self).particles@.len() ==> in_bounds(
                    #[trigger] final(self).particles@[k],
                ),
            r is Ok ==> exists|states: Seq<Seq<Particle>>|
                #[trigger] interleaved_history(
                    states,
                    old(self).particles@,
                    final(self).particles@,
                    num_iterations as int,
                    collision_covered(
                        old(self).particles@.len() as int,
                        (num_threads_total - num_threads_movement) as int,
                    ),
                    pol,
                    final(self).collision_counter.total - old(self).collision_counter.total,
                ),
    {
        let n = self.particles.len();
        if num_threads_movement == 0 || num_threads_movement >= num_threads_total {
            return Err(ConfigError::NoWorkers);
        }
        let num_threads_collision = num_threads_total - num_threads_movement;
        if num_threads_movement > n || num_threads_collision > n {
            return Err(ConfigError::TooManyWorkers);
        }
        let ghost orig_total = self.collision_counter.total;
        let ghost orig_particles = self.particles@;
        let ghost covered = collision_covered(n as int, num_threads_collision as int);
        let ghost mut states: Seq<Seq<Particle>> = seq![self.particles@];
        let mut round: u32 = 0;
        while round < num_iterations
            invariant
                self.wf(),
                n == self.particles@.len(),
                1 <= num_threads_movement <= n,
                1 <= num_threads_collision <= n,
                round <= num_iterations,
                self.collision_counter.total >= orig_total,
                self.collision_counter.total <= orig_total + round * (n * n),
                orig_total + num_iterations * (n * n) <= u64::MAX,
                round > 0 ==> forall|k: int|
                    0 <= k < self.particles@.len() ==> in_bounds(#[trigger] self.particles@[k]),
                covered == collision_covered(n as int, num_threads_collision as int),
                states.len() == round + 1,
                states[0] == orig_particles,
                states[round as int] == self.particles@,
                forall|t: int|
                    0 <= t < round ==> movement_successor(#[trigger] states[t], states[t + 1]),
                self.collision_counter.total == orig_total + sum_round_counts(
                    states,
                    round as int,
                    covered,
                    pol,
                ),
            decreases num_iterations - round,
        {
            proof {
                lemma_mul_inequality(round as int + 1, num_iterations as int, n as int * n as int);
                lemma_mul_is_distributive_add_other_way(n as int * n as int, round as int, 1);
            }
            let ghost prev = self.particles@;
            let c = self.simulation_round(num_threads_movement, num_threads_collision, pol);
            proof {
                lemma_collision_covered_bound(n as int, num_threads_collision as int);
                lemma_count_rows_bound(
                    self.particles@,
                    0,
                    collision_covered(n as int, num_threads_collision as int),
                    pol,
                );
                lemma_mul_inequality(
                    collision_covered(n as int, num_threads_collision as int),
                    n as int,
                    n as int,
                );
                lemma_sum_round_counts_push(states, self.particles@, round as int, covered, pol);
                states = states.push(self.particles@);
                assert(movement_successor(prev, self.particles@));
            }
            round = round + 1;
        }
        proof {
            let added = self.collision_counter.total - orig_total;
            assert(interleaved_history(
                states,
                old(self).particles@,
                self.particles@,
                num_iterations as int,
                covered,
                pol,
                added,
            ));
        }
        Ok(self.collision_counter.get())
    }
}

} // verus!
