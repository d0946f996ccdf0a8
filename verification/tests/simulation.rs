use colliding_particles::collider::CollisionPolicy;
use colliding_particles::mover::{apply_steps, step_particle, thread_main};
use colliding_particles::partition::chunk_bounds;
use colliding_particles::system::{ConfigError, ParticleSystem};
use colliding_particles::Particle;

fn system_with(positions: &[(i32, i32)]) -> ParticleSystem {
    let mut sys = ParticleSystem::new();
    for (i, &(x, y)) in positions.iter().enumerate() {
        sys.push_particle(Particle::new(x, y, i));
    }
    sys
}

/// Positions of the two-pair scenario: two clusters of two particles each,
/// the partners one tenth of a unit apart, the clusters far apart.
fn two_pair_positions() -> Vec<(i32, i32)> {
    vec![(0, 0), (100, 100), (5000, 5000), (5100, 5100)]
}

#[test]
fn proximity_of_a_particle_with_itself() {
    let p = Particle::new(123, -4567, 0);
    assert!(p.collide(&p));
    let q = Particle::new(0, 0, 1);
    assert!(q.collide(&q));
}

#[test]
fn proximity_is_symmetric() {
    let a = Particle::new(0, 0, 0);
    let near = Particle::new(176, 176, 1);
    let far = Particle::new(177, 177, 2);
    assert_eq!(a.collide(&near), near.collide(&a));
    assert_eq!(a.collide(&far), far.collide(&a));
    assert!(a.collide(&near));
    assert!(!a.collide(&far));
}

#[test]
fn proximity_threshold_is_a_quarter_unit() {
    let a = Particle::new(0, 0, 0);
    // exactly the collision radius: 250 thousandths on one axis
    assert!(a.collide(&Particle::new(250, 0, 1)));
    assert!(!a.collide(&Particle::new(251, 0, 1)));
    assert!(a.collide(&Particle::new(0, -250, 1)));
    assert!(!a.collide(&Particle::new(0, -251, 1)));
}

#[test]
fn two_pair_scenario_counts_two_with_dedup() {
    let mut sys = system_with(&two_pair_positions());
    let total = sys.collide_particles(1, CollisionPolicy::UpperTriangular).unwrap();
    assert_eq!(total, 2);
}

#[test]
fn two_pair_scenario_counts_two_with_dedup_and_two_workers() {
    let mut sys = system_with(&two_pair_positions());
    let total = sys.collide_particles(2, CollisionPolicy::UpperTriangular).unwrap();
    assert_eq!(total, 2);
}

#[test]
fn two_pair_scenario_counts_four_pairwise() {
    let mut sys = system_with(&two_pair_positions());
    let total = sys.collide_particles(1, CollisionPolicy::Pairwise).unwrap();
    assert_eq!(total, 4);
}

#[test]
fn single_particle_reports_no_collisions() {
    let mut sys = system_with(&[(0, 0)]);
    assert_eq!(sys.collide_particles(1, CollisionPolicy::UpperTriangular).unwrap(), 0);
    assert_eq!(sys.collide_particles(1, CollisionPolicy::Pairwise).unwrap(), 0);
    assert_eq!(sys.move_particles_loop(3, 1), Ok(()));
    assert_eq!(sys.particles.len(), 1);
}

#[test]
fn movement_chunks_cover_one_hundred_over_twelve() {
    let mut covered = 0usize;
    for k in 0..12 {
        let (lo, hi) = chunk_bounds(100, 12, k);
        assert_eq!(lo, k * 8);
        if k < 11 {
            assert_eq!(hi, (k + 1) * 8);
            assert_eq!(hi - lo, 8);
        } else {
            assert_eq!(hi, 100);
            assert_eq!(hi - lo, 12);
        }
        covered += hi - lo;
    }
    assert_eq!(covered, 100);
}

#[test]
fn movement_pass_clamps_into_bounds() {
    let mut positions: Vec<(i32, i32)> = Vec::new();
    for i in 0..100 {
        // start on the domain edge so a step would leave it without the clamp
        let corner = match i % 4 {
            0 => (5000, 5000),
            1 => (-5000, 5000),
            2 => (5000, -5000),
            _ => (-5000, -5000),
        };
        positions.push(corner);
    }
    let mut sys = system_with(&positions);
    assert_eq!(sys.move_particles_loop(50, 12), Ok(()));
    assert_eq!(sys.particles.len(), 100);
    for (i, p) in sys.particles.iter().enumerate() {
        assert_eq!(p.id, i);
        assert!(-5000 <= p.x && p.x <= 5000);
        assert!(-5000 <= p.y && p.y <= 5000);
    }
}

#[test]
fn single_worker_moves_the_whole_collection() {
    let mut sys = system_with(&[(6000, 0), (0, -6000), (0, 0)]);
    assert_eq!(sys.move_particles_loop(1, 1), Ok(()));
    for p in sys.particles.iter() {
        assert!(-5000 <= p.x && p.x <= 5000);
        assert!(-5000 <= p.y && p.y <= 5000);
    }
}

#[test]
fn step_clamps_at_both_edges() {
    let mut p = Particle::new(4900, 0, 7);
    step_particle(&mut p, 200, -300);
    assert_eq!((p.x, p.y, p.id), (5000, -300, 7));

    let mut q = Particle::new(-4900, 0, 8);
    step_particle(&mut q, -200, 6000);
    assert_eq!((q.x, q.y, q.id), (-5000, 5000, 8));
}

#[test]
fn fixed_displacements_are_deterministic() {
    let steps: Vec<(i32, i32)> = vec![(100, -200), (999, 999), (-50, 25), (-999, -999)];
    let start: Vec<Particle> = vec![
        Particle::new(0, 0, 0),
        Particle::new(4900, -4900, 1),
        Particle::new(-100, 200, 2),
    ];

    let mut first = start.clone();
    apply_steps(&mut first, 0, 3, &steps);
    let mut second = start.clone();
    apply_steps(&mut second, 0, 3, &steps);

    assert_eq!(first.len(), second.len());
    for (a, b) in first.iter().zip(second.iter()) {
        assert_eq!((a.x, a.y, a.id), (b.x, b.y, b.id));
    }
}

#[test]
fn fixed_displacements_walk_the_chunk_in_order() {
    // one particle, two rounds: both steps land on it in order
    let mut particles = vec![Particle::new(0, 0, 0)];
    apply_steps(&mut particles, 0, 1, &vec![(100, -200), (-40, 60)]);
    assert_eq!((particles[0].x, particles[0].y), (60, -140));

    // two particles: step 0 to the first, step 1 to the second
    let mut pair = vec![Particle::new(0, 0, 0), Particle::new(1000, 1000, 1)];
    apply_steps(&mut pair, 0, 2, &vec![(10, 20), (-30, -40)]);
    assert_eq!((pair[0].x, pair[0].y), (10, 20));
    assert_eq!((pair[1].x, pair[1].y), (970, 960));
}

#[test]
fn random_movement_respects_the_chunk() {
    let mut particles = vec![
        Particle::new(7000, 7000, 0),
        Particle::new(7000, 7000, 1),
        Particle::new(7000, 7000, 2),
    ];
    // only the middle particle is in the chunk; the others must not move
    thread_main(&mut particles, 1, 2, 5);
    assert_eq!((particles[0].x, particles[0].y), (7000, 7000));
    assert_eq!((particles[2].x, particles[2].y), (7000, 7000));
    assert!(-5000 <= particles[1].x && particles[1].x <= 5000);
    assert!(-5000 <= particles[1].y && particles[1].y <= 5000);
    assert_eq!(particles[1].id, 1);
}

#[test]
fn counter_accumulates_across_passes() {
    let mut once = system_with(&two_pair_positions());
    once.collide_particles(1, CollisionPolicy::UpperTriangular).unwrap();
    assert_eq!(once.collision_counter.get(), 2);

    // the same pass three times over an unchanged collection triples the total
    let mut thrice = system_with(&two_pair_positions());
    for _ in 0..3 {
        thrice.collide_particles(1, CollisionPolicy::UpperTriangular).unwrap();
    }
    assert_eq!(thrice.collision_counter.get(), 3 * once.collision_counter.get());
}

#[test]
fn reset_gives_a_fresh_per_pass_total() {
    let mut sys = system_with(&two_pair_positions());
    sys.collide_particles(1, CollisionPolicy::Pairwise).unwrap();
    assert_eq!(sys.collision_counter.get(), 4);
    sys.collision_counter.reset();
    assert_eq!(sys.collision_counter.get(), 0);
    let total = sys.collide_particles(1, CollisionPolicy::UpperTriangular).unwrap();
    assert_eq!(total, 2);
}

#[test]
fn worker_budget_is_validated() {
    let mut sys = system_with(&two_pair_positions());
    assert_eq!(sys.move_particles_loop(1, 0), Err(ConfigError::NoWorkers));
    assert_eq!(sys.move_particles_loop(1, 5), Err(ConfigError::TooManyWorkers));
    assert_eq!(
        sys.collide_particles(0, CollisionPolicy::Pairwise),
        Err(ConfigError::NoWorkers)
    );
    assert_eq!(
        sys.collide_particles(5, CollisionPolicy::Pairwise),
        Err(ConfigError::TooManyWorkers)
    );
    assert_eq!(sys.collision_counter.get(), 0);

    // the interleaved mode validates both halves of the budget
    assert_eq!(
        sys.move_and_collide_particles(1, 4, 0, CollisionPolicy::UpperTriangular),
        Err(ConfigError::NoWorkers)
    );
    assert_eq!(
        sys.move_and_collide_particles(1, 4, 4, CollisionPolicy::UpperTriangular),
        Err(ConfigError::NoWorkers)
    );
    assert_eq!(
        sys.move_and_collide_particles(1, 12, 2, CollisionPolicy::UpperTriangular),
        Err(ConfigError::TooManyWorkers)
    );
}

#[test]
fn interleaved_mode_accumulates_over_rounds() {
    let mut positions: Vec<(i32, i32)> = Vec::new();
    for i in 0..100 {
        positions.push((((i as i32) % 10) * 1000 - 4500, ((i as i32) / 10) * 1000 - 4500));
    }
    let mut sys = system_with(&positions);
    let total = sys
        .move_and_collide_particles(3, 12, 2, CollisionPolicy::UpperTriangular)
        .unwrap();
    assert_eq!(total, sys.collision_counter.get());
    assert_eq!(sys.particles.len(), 100);
    for (i, p) in sys.particles.iter().enumerate() {
        assert_eq!(p.id, i);
        assert!(-5000 <= p.x && p.x <= 5000);
        assert!(-5000 <= p.y && p.y <= 5000);
    }
}

#[test]
fn interleaved_round_count_matches_independent_passes() {
    // a crowded cluster: every particle close to every other
    let positions = vec![(0, 0), (10, 10), (20, 20), (30, 30)];
    let mut sys = system_with(&positions);
    let total = sys
        .move_and_collide_particles(2, 4, 2, CollisionPolicy::UpperTriangular)
        .unwrap();
    // each round adds that round's count; two rounds, so the counter holds
    // the sum of two per-round totals, each at most the full pair count
    assert!(total <= 2 * 6);
    assert_eq!(total, sys.collision_counter.get());
}
