use pbd2d::component::{
    CircleCollider, Contacts, Gravity, Mass, Pos, PosPrev, Restitution, Vec2, Vel, VelPreSolve,
};
use pbd2d::particle::ParticleBundle;
use pbd2d::solver::tick;
use pbd2d::world::World;

fn particle(x: i128, y: i128, vx: i128, vy: i128, mass: i128, radius: i128, e: i128) -> ParticleBundle {
    ParticleBundle {
        pos: Pos(Vec2 { x, y }),
        pos_prev: PosPrev(Vec2 { x, y }),
        mass: Mass(mass),
        collider: CircleCollider { radius },
        vel: Vel(Vec2 { x: vx, y: vy }),
        vel_pre_solve: VelPreSolve(Vec2 { x: 0, y: 0 }),
        restitution: Restitution(e),
    }
}

fn world(particles: Vec<ParticleBundle>, gx: i128, gy: i128) -> World {
    World {
        particles,
        gravity: Gravity(Vec2 { x: gx, y: gy }),
        contacts: Contacts(Vec::new()),
    }
}

// Free fall, one tick: vel = (0, -0.1635), pos = (0, -0.002725),
// exactly in fixed point.
#[test]
fn free_fall_one_tick() {
    let mut w = world(vec![particle(0, 0, 0, 0, 1_000_000, 500_000, 300_000)], 0, -9_810_000);
    tick(&mut w);
    assert_eq!(w.particles[0].vel.0, Vec2 { x: 0, y: -163_500 });
    assert_eq!(w.particles[0].pos.0, Vec2 { x: 0, y: -2_725 });
    assert!(w.contacts.0.is_empty());
}

// No-gravity straight line: vel (2, 0) for 60 ticks lands within one
// quantum per tick of x = 2.
#[test]
fn straight_line_sixty_ticks() {
    let mut w = world(vec![particle(0, 0, 2_000_000, 0, 1_000_000, 500_000, 300_000)], 0, 0);
    for _ in 0..60 {
        tick(&mut w);
    }
    let x = w.particles[0].pos.0.x;
    assert_eq!(x, 1_999_980);
    assert_eq!(w.particles[0].pos.0.y, 0);
}

// With gravity g over one tick, vel.y = vel.y0 + g * dt and
// pos.y = pos.y0 + new_vel.y * dt (semi-implicit Euler).
#[test]
fn semi_implicit_euler_order() {
    let mut w = world(
        vec![particle(0, 10_000_000, 0, 600_000, 1_000_000, 500_000, 300_000)],
        0,
        -9_810_000,
    );
    tick(&mut w);
    // new vel from integration: 600_000 - 163_500 = 436_500
    assert_eq!(w.particles[0].vel_pre_solve.0.y, 436_500);
    // position moved by new_vel * dt = 436_500 / 60 = 7_275
    assert_eq!(w.particles[0].pos.0.y, 10_000_000 + 7_275);
    // re-derived velocity equals the integrated one up to one quantum
    assert!((w.particles[0].vel.0.y - 436_500).abs() < 60);
}

// Elastic head-on collision of equal masses: velocities swap along
// the contact normal.
#[test]
fn elastic_head_on_swaps_velocities() {
    let mut w = world(
        vec![
            particle(-20_000_000, 0, 6_000_000, 0, 1_000_000, 5_000_000, 1_000_000),
            particle(20_000_000, 0, -6_000_000, 0, 1_000_000, 5_000_000, 1_000_000),
        ],
        0,
        0,
    );
    for _ in 0..300 {
        tick(&mut w);
    }
    let va = w.particles[0].vel.0.x;
    let vb = w.particles[1].vel.0.x;
    assert!(va < 0, "a moves left after the bounce, got {va}");
    assert!(vb > 0, "b moves right after the bounce, got {vb}");
    // speeds stay 6 within 1 percent
    assert!((va + 6_000_000).abs() <= 60_000, "va {va}");
    assert!((vb - 6_000_000).abs() <= 60_000, "vb {vb}");
    // they separated again
    assert!(w.particles[1].pos.0.x - w.particles[0].pos.0.x >= 10_000_000 - 100);
}

// Fully inelastic head-on collision of equal masses: the relative
// normal velocity after the collision is (nearly) zero, and the
// momentum sum stays (nearly) zero.
#[test]
fn inelastic_head_on_kills_relative_velocity() {
    let mut w = world(
        vec![
            particle(-20_000_000, 0, 6_000_000, 0, 1_000_000, 5_000_000, 0),
            particle(20_000_000, 0, -6_000_000, 0, 1_000_000, 5_000_000, 0),
        ],
        0,
        0,
    );
    for _ in 0..300 {
        tick(&mut w);
    }
    let va = w.particles[0].vel.0.x;
    let vb = w.particles[1].vel.0.x;
    assert!((va + vb).abs() <= 60_000, "momentum sum {}", va + vb);
    assert!((va - vb).abs() <= 60_000, "relative velocity {}", va - vb);
}

// Stack rest: two light particles settle on a floor particle that
// the host re-pins between ticks (a kinematic body with a huge mass,
// standing in for static geometry).
#[test]
fn stack_comes_to_rest() {
    let mut w = world(
        vec![
            particle(0, 0, 0, 0, 1_000_000_000_000, 1_000_000, 300_000),
            particle(0, 2_000_000, 0, 0, 1_000_000, 1_000_000, 300_000),
            particle(0, 4_000_000, 0, 0, 1_000_000, 1_000_000, 300_000),
        ],
        0,
        -9_810_000,
    );
    for _ in 0..300 {
        tick(&mut w);
        // hosts may mutate records between ticks: hold the floor in place
        w.particles[0] = particle(0, 0, 0, 0, 1_000_000_000_000, 1_000_000, 300_000);
    }
    // neighbours interpenetrate at most 0.01 world units
    for (a, b) in [(0usize, 1usize), (1, 2)] {
        let dy = w.particles[b].pos.0.y - w.particles[a].pos.0.y;
        assert!(dy >= 2_000_000 - 10_000, "pair ({a},{b}) separation {dy}");
        assert!(dy <= 2_200_000, "pair ({a},{b}) drifted apart: {dy}");
    }
    // vertical velocities relative to the floor stay bounded
    for i in 1..3 {
        let dv = w.particles[i].vel.0.y - w.particles[0].vel.0.y;
        assert!(dv.abs() <= 400_000, "particle {i} relative vel {dv}");
    }
}
