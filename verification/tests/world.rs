use bullet_sim::actions::{BulletAction, BulletActionType};
use bullet_sim::bullet::{
    Acceleration, AngularAcceleration, AngularVelocity, Bullet, Vector, Velocity,
};
use bullet_sim::collision::{Bounds, Projectile, Target};
use bullet_sim::world::World;

fn flying(id: u64, speed: i64) -> Bullet {
    Bullet {
        id,
        position: Vector { x: 0, y: 0 },
        half_extent: Vector { x: 1, y: 1 },
        orientation: 0,
        velocity: Velocity(speed),
        acceleration: Acceleration(0),
        angular_velocity: AngularVelocity(0),
        angular_acceleration: AngularAcceleration(0),
    }
}

fn up(_: i64) -> Vector {
    Vector { x: 0, y: 1 }
}

fn unit() -> Vector {
    Vector { x: 1, y: 1 }
}

#[test]
fn new_world_is_empty() {
    let w = World::new();
    assert!(w.bullets.is_empty());
    assert!(w.programs.is_empty());
    assert!(w.targets.is_empty());
    assert_eq!(w.despawns.len(), 0);
}

#[test]
fn world_spawns_bullet_with_program() {
    let mut w = World::new();
    w.spawn_bullet(flying(1, 5), vec![BulletAction(BulletActionType::Despawn, 30)], false);
    w.spawn_bullet(flying(2, 6), vec![BulletAction(BulletActionType::Rotate(1), 40)], true);
    assert_eq!(w.bullets, vec![flying(1, 5), flying(2, 6)]);
    assert_eq!(w.programs.len(), 2);
    assert_eq!(w.programs[0].remaining(), Some(30));
    assert_eq!(w.programs[1].remaining(), Some(40));
    assert!(w.programs[1].repeat());
}

#[test]
fn world_projectiles_follow_bullets() {
    let mut w = World::new();
    w.spawn_bullet(flying(1, 5), vec![BulletAction(BulletActionType::Despawn, 30)], false);
    w.bullets[0].position = Vector { x: 3, y: 4 };
    assert_eq!(
        w.projectiles(),
        vec![Projectile { id: 1, bounds: Bounds { center: Vector { x: 3, y: 4 }, half_extent: unit() } }]
    );
}

#[test]
fn tick_runs_integrator_then_scheduler_then_resolver() {
    let mut w = World::new();
    // Reaches the target only through the scheduler's move, which comes
    // after the integrator's.
    w.spawn_bullet(
        flying(1, 10),
        vec![BulletAction(BulletActionType::Move(Vector { x: 50, y: 0 }), 0)],
        true,
    );
    w.spawn_target(Target {
        id: 9,
        bounds: Bounds { center: Vector { x: 50, y: 10 }, half_extent: unit() },
        health: 2,
    });
    let gone = w.tick(1, up);
    assert_eq!(gone, vec![1]);
    assert!(w.bullets.is_empty());
    assert!(w.programs.is_empty());
    assert_eq!(w.targets.len(), 1);
    assert_eq!(w.targets[0].health, 1);
    assert_eq!(w.despawns.len(), 0);
}

#[test]
fn tick_keeps_what_nothing_removed() {
    let mut w = World::new();
    w.spawn_bullet(flying(1, 10), vec![BulletAction(BulletActionType::SetVelocity(20), 5)], true);
    w.spawn_target(Target {
        id: 9,
        bounds: Bounds { center: Vector { x: 500, y: 500 }, half_extent: unit() },
        health: 2,
    });
    assert!(w.tick(3, up).is_empty());
    assert_eq!(w.bullets[0].position, Vector { x: 0, y: 30 });
    assert_eq!(w.bullets[0].velocity, Velocity(10));
    assert_eq!(w.programs[0].remaining(), Some(2));
    assert!(w.tick(3, up).is_empty());
    assert_eq!(w.bullets[0].position, Vector { x: 0, y: 60 });
    assert_eq!(w.bullets[0].velocity, Velocity(20));
    assert_eq!(w.targets[0].health, 2);
}

#[test]
fn tick_removes_destroyed_target_and_pending_requests() {
    let mut w = World::new();
    w.spawn_bullet(flying(1, 0), vec![BulletAction(BulletActionType::Rotate(1), 100)], true);
    w.spawn_bullet(flying(2, 0), vec![BulletAction(BulletActionType::Rotate(1), 100)], true);
    w.bullets[1].position = Vector { x: 100, y: 100 };
    w.spawn_target(Target {
        id: 9,
        bounds: Bounds { center: Vector { x: 1, y: 1 }, half_extent: unit() },
        health: 1,
    });
    w.despawns.request(2);
    w.despawns.request(2);
    let mut gone = w.tick(1, up);
    gone.sort();
    assert_eq!(gone, vec![1, 2, 9]);
    assert!(w.bullets.is_empty());
    assert!(w.programs.is_empty());
    assert!(w.targets.is_empty());
}

#[test]
fn world_knows_its_identifiers() {
    let mut w = World::new();
    assert!(!w.contains_id(1));
    w.spawn_bullet(flying(1, 0), vec![BulletAction(BulletActionType::Rotate(1), 100)], true);
    w.spawn_target(Target {
        id: 9,
        bounds: Bounds { center: Vector { x: 50, y: 50 }, half_extent: unit() },
        health: 1,
    });
    assert!(w.contains_id(1));
    assert!(w.contains_id(9));
    assert!(!w.contains_id(2));
}

#[test]
fn each_bullet_has_its_own_half_extents() {
    let mut w = World::new();
    let mut wide = flying(1, 0);
    wide.half_extent = Vector { x: 20, y: 1 };
    w.spawn_bullet(wide, vec![BulletAction(BulletActionType::Rotate(1), 100)], true);
    w.spawn_bullet(flying(2, 0), vec![BulletAction(BulletActionType::Rotate(1), 100)], true);
    w.spawn_target(Target {
        id: 9,
        bounds: Bounds { center: Vector { x: 15, y: 0 }, half_extent: unit() },
        health: 5,
    });
    assert_eq!(w.tick(1, up), vec![1]);
    assert_eq!(w.bullets.len(), 1);
    assert_eq!(w.bullets[0].id, 2);
    assert_eq!(w.targets[0].health, 4);
}

#[test]
fn target_outlives_bullet_tick_after_tick() {
    let mut w = World::new();
    w.spawn_target(Target {
        id: 9,
        bounds: Bounds { center: Vector { x: 0, y: 0 }, half_extent: unit() },
        health: 2,
    });
    w.spawn_bullet(flying(1, 0), vec![BulletAction(BulletActionType::Rotate(1), 100)], true);
    assert_eq!(w.tick(1, up), vec![1]);
    assert_eq!(w.targets[0].health, 1);
    assert!(!w.contains_id(1));
    w.spawn_bullet(flying(1, 0), vec![BulletAction(BulletActionType::Rotate(1), 100)], true);
    let mut gone = w.tick(1, up);
    gone.sort();
    assert_eq!(gone, vec![1, 9]);
    assert!(w.targets.is_empty());
}
