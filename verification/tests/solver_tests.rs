use pbd2d::component::{
    CircleCollider, Contacts, Gravity, Mass, Pos, PosPrev, Restitution, Vec2, Vel, VelPreSolve,
};
use pbd2d::num::{isqrt, SCALE, TICKS_PER_SECOND};
use pbd2d::particle::ParticleBundle;
use pbd2d::solver::{collect_collision_pairs, solve_pos, sync_transforms, tick, update_vel};
use pbd2d::world::World;

fn particle(x: i128, y: i128, vx: i128, vy: i128, mass: i128, radius: i128, e: i128) -> ParticleBundle {
    ParticleBundle {
        pos: Pos(Vec2 { x, y }),
        pos_prev: PosPrev(Vec2 { x, y }),
        mass: Mass(mass),
        collider: CircleCollider { radius },
        vel: Vel(Vec2 { x: vx, y: vy }),
        vel_pre_solve: VelPreSolve(Vec2 { x: 0, y: 0 }),
        restitution: Restitution(e),
    }
}

fn world(particles: Vec<ParticleBundle>, gx: i128, gy: i128) -> World {
    World {
        particles,
        gravity: Gravity(Vec2 { x: gx, y: gy }),
        contacts: Contacts(Vec::new()),
    }
}

#[test]
fn constants() {
    assert_eq!(SCALE, 1_000_000);
    assert_eq!(TICKS_PER_SECOND, 60);
}

#[test]
fn defaults() {
    let p = ParticleBundle::default();
    assert_eq!(p.mass.0, 1_000_000);
    assert_eq!(p.restitution.0, 300_000);
    assert_eq!(p.collider.radius, 5_000_000);
    assert_eq!(p.pos.0, Vec2 { x: 0, y: 0 });
    assert_eq!(p.vel.0, Vec2 { x: 0, y: 0 });
    let g = Gravity::default();
    assert_eq!(g.0, Vec2 { x: 0, y: -9_810_000 });
}

#[test]
fn from_pos_and_vel_is_verlet_consistent() {
    let p = ParticleBundle::from_pos_and_vel(
        Vec2 { x: 3_000_000, y: -1_000_000 },
        Vec2 { x: 600_000, y: 120_000 },
    );
    assert_eq!(p.pos.0, Vec2 { x: 3_000_000, y: -1_000_000 });
    // pos_prev = pos - vel / 60
    assert_eq!(p.pos_prev.0, Vec2 { x: 3_000_000 - 10_000, y: -1_000_000 - 2_000 });
    assert_eq!(p.vel.0, Vec2 { x: 600_000, y: 120_000 });
    assert_eq!(p.vel_pre_solve.0, Vec2 { x: 0, y: 0 });
    assert_eq!(p.mass.0, 1_000_000);
    assert_eq!(p.collider.radius, 5_000_000);
    assert_eq!(p.restitution.0, 300_000);
}

#[test]
fn isqrt_edges() {
    assert_eq!(isqrt(0), 0);
    assert_eq!(isqrt(1), 1);
    assert_eq!(isqrt(2), 1);
    assert_eq!(isqrt(3), 1);
    assert_eq!(isqrt(4), 2);
    assert_eq!(isqrt(35), 5);
    assert_eq!(isqrt(36), 6);
    assert_eq!(isqrt(10_000_000_000_000_000_000_000_000), 3_162_277_660_168);
}

#[test]
fn broad_phase_is_noop() {
    let mut w = world(vec![particle(0, 0, 0, 0, 1_000_000, 500_000, 300_000)], 0, -9_810_000);
    collect_collision_pairs(&mut w);
    assert_eq!(w.particles.len(), 1);
    assert_eq!(w.particles[0].pos.0, Vec2 { x: 0, y: 0 });
    assert!(w.contacts.0.is_empty());
}

// Previous-position correctness: after a tick, pos_prev is the
// position at tick start.
#[test]
fn pos_prev_after_tick() {
    let mut w = world(
        vec![
            particle(1_000_000, 2_000_000, 50_000, -30_000, 1_000_000, 500_000, 300_000),
            particle(20_000_000, 0, 0, 0, 1_000_000, 500_000, 300_000),
        ],
        0,
        -9_810_000,
    );
    tick(&mut w);
    assert_eq!(w.particles[0].pos_prev.0, Vec2 { x: 1_000_000, y: 2_000_000 });
    assert_eq!(w.particles[1].pos_prev.0, Vec2 { x: 20_000_000, y: 0 });
}

// Velocity-position consistency: vel == (pos - pos_prev) * 60 right
// after the re-derivation stage.
#[test]
fn vel_matches_position_change() {
    let mut p = particle(5_000_000, 7_000_000, 0, 0, 1_000_000, 500_000, 300_000);
    p.pos_prev = PosPrev(Vec2 { x: 4_990_000, y: 7_060_000 });
    let mut w = world(vec![p], 0, 0);
    update_vel(&mut w);
    assert_eq!(w.particles[0].vel.0, Vec2 { x: 10_000 * 60, y: -60_000 * 60 });
}

// Pre-solve velocity snapshot equals the integrated velocity, not the
// pre-integration one.
#[test]
fn vel_pre_solve_is_post_integration() {
    let mut w = world(vec![particle(0, 0, 120_000, 0, 1_000_000, 500_000, 300_000)], 0, -9_810_000);
    tick(&mut w);
    assert_eq!(w.particles[0].vel_pre_solve.0, Vec2 { x: 120_000, y: -163_500 });
}

#[test]
fn sync_reports_positions_with_zero_z() {
    let w = world(
        vec![
            particle(1_234, -5_678, 0, 0, 1_000_000, 500_000, 300_000),
            particle(42, 43, 0, 0, 1_000_000, 500_000, 300_000),
        ],
        0,
        0,
    );
    let frame = sync_transforms(&w);
    assert_eq!(frame.len(), 2);
    assert_eq!((frame[0].x, frame[0].y, frame[0].z), (1_234, -5_678, 0));
    assert_eq!((frame[1].x, frame[1].y, frame[1].z), (42, 43, 0));
}

// Contact set exactness: of three particles, exactly the one
// overlapping pair is recorded, once, and in index order.
#[test]
fn contact_set_exactness() {
    let mut w = world(
        vec![
            particle(0, 0, 0, 0, 1_000_000, 5_000_000, 300_000),
            particle(8_000_000, 0, 0, 0, 1_000_000, 5_000_000, 300_000),
            particle(100_000_000, 0, 0, 0, 1_000_000, 5_000_000, 300_000),
        ],
        0,
        0,
    );
    solve_pos(&mut w);
    assert_eq!(w.contacts.0, vec![(0usize, 1usize)]);
}

// Contact set idempotence: a non-overlapping configuration records
// zero contacts and nothing moves.
#[test]
fn no_overlap_records_no_contacts() {
    let mut w = world(
        vec![
            particle(0, 0, 0, 0, 1_000_000, 1_000_000, 300_000),
            particle(10_000_000, 0, 0, 0, 1_000_000, 1_000_000, 300_000),
            particle(0, 10_000_000, 0, 0, 1_000_000, 1_000_000, 300_000),
        ],
        0,
        0,
    );
    solve_pos(&mut w);
    assert!(w.contacts.0.is_empty());
    assert_eq!(w.particles[0].pos.0, Vec2 { x: 0, y: 0 });
    assert_eq!(w.particles[1].pos.0, Vec2 { x: 10_000_000, y: 0 });
    assert_eq!(w.particles[2].pos.0, Vec2 { x: 0, y: 10_000_000 });
}

// Overlapping pair: the projection separates the centers to the
// combined radius, up to sub-unit rounding, splitting by inverse mass.
#[test]
fn projection_resolves_penetration() {
    let mut w = world(
        vec![
            particle(0, 0, 0, 0, 1_000_000, 5_000_000, 300_000),
            particle(8_000_000, 0, 0, 0, 1_000_000, 5_000_000, 300_000),
        ],
        0,
        0,
    );
    solve_pos(&mut w);
    assert_eq!(w.contacts.0, vec![(0usize, 1usize)]);
    let sep = w.particles[1].pos.0.x - w.particles[0].pos.0.x;
    // combined radius 10_000_000, tolerance 100 sub-units (1e-4)
    assert!(sep >= 10_000_000 - 100, "separation {sep}");
    assert!(sep <= 10_000_000 + 100, "separation {sep}");
    // equal masses: the push is symmetric
    assert_eq!(w.particles[0].pos.0.x, -w.particles[1].pos.0.x + 8_000_000);
}

// Momentum conservation (equal mass, no gravity): the sum of the
// velocities moves by less than two timestep quanta per component.
#[test]
fn momentum_preserved_for_equal_mass_pair() {
    let mut w = world(
        vec![
            particle(0, 0, 777_777, 13, 1_000_000, 5_000_000, 700_000),
            particle(8_000_000, 1_000_000, -999_999, 271_829, 1_000_000, 5_000_000, 700_000),
        ],
        0,
        0,
    );
    let before_x = w.particles[0].vel.0.x + w.particles[1].vel.0.x;
    let before_y = w.particles[0].vel.0.y + w.particles[1].vel.0.y;
    tick(&mut w);
    let after_x = w.particles[0].vel.0.x + w.particles[1].vel.0.x;
    let after_y = w.particles[0].vel.0.y + w.particles[1].vel.0.y;
    assert!((after_x - before_x).abs() < 2 * 60, "dx {}", after_x - before_x);
    assert!((after_y - before_y).abs() < 2 * 60, "dy {}", after_y - before_y);
}
