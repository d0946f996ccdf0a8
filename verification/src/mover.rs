use vstd::prelude::*;

use crate::particle::{Particle, in_bounds, HALF_HEIGHT, HALF_WIDTH, UNIT};
use crate::rng::{random_flip, random_in_range};

verus! {

/// Hard clamp of a coordinate into `[-half, half]`.
pub open spec fn clamp(v: int, half: int) -> int {
    if v < -half {
        -half
    } else if v > half {
        half
    } else {
        v
    }
}

/// The particle after one displacement: each axis is shifted and then clamped
/// into the rectangular domain; the identity is untouched.
pub open spec fn stepped(p: Particle, dx: int, dy: int) -> Particle {
    Particle {
        x: clamp(p.x + dx, HALF_WIDTH as int) as i32,
        y: clamp(p.y + dy, HALF_HEIGHT as int) as i32,
        id: p.id,
    }
}

/// Apply one signed displacement to a particle and clamp it into the domain.
pub fn step_particle(p: &mut Particle, dx: i32, dy: i32)
    ensures
        *final(p) == stepped(*old(p), dx as int, dy as int),
        in_bounds(*final(p)),
{
    let mut nx: i64 = p.x as i64 + dx as i64;
    if nx < -(HALF_WIDTH as i64) {
        nx = -(HALF_WIDTH as i64);
    } else if nx > HALF_WIDTH as i64 {
        nx = HALF_WIDTH as i64;
    }
    let mut ny: i64 = p.y as i64 + dy as i64;
    if ny < -(HALF_HEIGHT as i64) {
        ny = -(HALF_HEIGHT as i64);
    } else if ny > HALF_HEIGHT as i64 {
        ny = HALF_HEIGHT as i64;
    }
    p.x = nx as i32;
    p.y = ny as i32;
}

/// The movement worker: the chunk `lo..hi` is walked `iteration_count` times,
/// and each visit shifts the particle by a random displacement of less than
/// one unit per axis, with an independent random sign per axis, then clamps it
/// into the domain. Particles outside the chunk are untouched; identities are
/// never changed; after at least one iteration every particle of the chunk
/// lies inside the domain.
pub fn thread_main(particles: &mut Vec<Particle>, lo: usize, hi: usize, iteration_count: u32)
    requires
        lo <= hi <= old(particles)@.len(),
    ensures
        final(particles)@.len() == old(particles)@.len(),
        forall|k: int|
            0 <= k < old(particles)@.len() && !(lo <= k < hi) ==> final(particles)@[k] == old(
                particles,
            )@[k],
        forall|k: int| lo <= k < hi ==> final(particles)@[k].id == old(particles)@[k].id,
        iteration_count > 0 ==> forall|k: int| lo <= k < hi ==> in_bounds(final(particles)@[k]),
{
    let ghost orig = particles@;
    let mut iter: u32 = 0;
    while iter < iteration_count
        invariant
            lo <= hi <= particles@.len(),
            particles@.len() == orig.len(),
            forall|k: int| 0 <= k < orig.len() && !(lo <= k < hi) ==> particles@[k] == orig[k],
            forall|k: int| lo <= k < hi ==> particles@[k].id == orig[k].id,
            iter > 0 ==> forall|k: int| lo <= k < hi ==> in_bounds(particles@[k]),
            iter <= iteration_count,
        decreases iteration_count - iter,
    {
        let mut i: usize = lo;
        while i < hi
            invariant
                lo <= i <= hi <= particles@.len(),
                particles@.len() == orig.len(),
                forall|k: int| 0 <= k < orig.len() && !(lo <= k < hi) ==> particles@[k] == orig[k],
                forall|k: int| lo <= k < hi ==> particles@[k].id == orig[k].id,
                forall|k: int| lo <= k < i ==> in_bounds(particles@[k]),
                iter > 0 ==> forall|k: int| i <= k < hi ==> in_bounds(particles@[k]),
            decreases hi - i,
        {
            let mx = random_in_range(0, UNIT);
            let my = random_in_range(0, UNIT);
            let dx = if random_flip() {
                -mx
            } else {
                mx
            };
            let dy = if random_flip() {
                -my
            } else {
                my
            };
            let mut p = particles[i];
            step_particle(&mut p, dx, dy);
            particles[i] = p;
            i = i + 1;
        }
        iter = iter + 1;
    }
}

/// The particle sequence after the first `t` displacements of `steps` have
/// been applied to the chunk `lo..hi`: displacement `t` goes to the particle
/// at `lo + t % (hi - lo)`, so the chunk is walked round after round in order.
pub open spec fn steps_applied(
    s: Seq<Particle>,
    lo: int,
    hi: int,
    steps: Seq<(i32, i32)>,
    t: nat,
) -> Seq<Particle>
    decreases t,
{
    if t == 0 {
        s
    } else {
        let prev = steps_applied(s, lo, hi, steps, (t - 1) as nat);
        let idx = lo + ((t - 1) as int % (hi - lo));
        prev.update(idx, stepped(prev[idx], steps[t - 1].0 as int, steps[t - 1].1 as int))
    }
}

/// The movement worker with an explicit displacement source: the displacements
/// are applied to the chunk in order, one particle per step, round after
/// round. The outcome is a function of the inputs alone, so two passes over
/// the same chunk with the same displacement sequence end in the same state.
pub fn apply_steps(particles: &mut Vec<Particle>, lo: usize, hi: usize, steps: &Vec<(i32, i32)>)
    requires
        lo < hi <= old(particles)@.len(),
    ensures
        final(particles)@ == steps_applied(
            old(particles)@,
            lo as int,
            hi as int,
            steps@,
            steps@.len(),
        ),
{
    let ghost orig = particles@;
    let chunk_len = hi - lo;
    let mut t: usize = 0;
    while t < steps.len()
        invariant
            lo < hi <= particles@.len(),
            chunk_len == hi - lo,
            particles@.len() == orig.len(),
            t <= steps@.len(),
            particles@ == steps_applied(orig, lo as int, hi as int, steps@, t as nat),
        decreases steps@.len() - t,
    {
        let idx = lo + t % chunk_len;
        let step = steps[t];
        let mut p = particles[idx];
        step_particle(&mut p, step.0, step.1);
        particles[idx] = p;
        t = t + 1;
    }
}

} // verus!
