use bullet_sim::bullet::Vector;
use bullet_sim::collision::{resolve_collisions, Bounds, Projectile, Target};
use bullet_sim::despawn::DespawnQueue;

fn square(x: i64, y: i64, half: i64) -> Bounds {
    Bounds { center: Vector { x, y }, half_extent: Vector { x: half, y: half } }
}

#[test]
fn collision_damage_scenario() {
    let projectiles = vec![Projectile { id: 1, bounds: square(0, 0, 5) }];
    let mut targets = vec![Target { id: 2, bounds: square(3, 0, 5), health: 1 }];
    let mut queue = DespawnQueue::new();
    resolve_collisions(&projectiles, &mut targets, &mut queue);
    assert_eq!(targets[0].health, 0);
    assert!(queue.contains(1));
    assert!(queue.contains(2));
    assert_eq!(queue.len(), 2);
}

#[test]
fn no_false_collision() {
    let projectiles = vec![Projectile { id: 1, bounds: square(0, 0, 5) }];
    let mut targets = vec![Target { id: 2, bounds: square(100, 0, 5), health: 1 }];
    let mut queue = DespawnQueue::new();
    resolve_collisions(&projectiles, &mut targets, &mut queue);
    assert_eq!(targets[0].health, 1);
    assert_eq!(queue.len(), 0);
    assert!(!queue.contains(1));
    assert!(!queue.contains(2));
}

#[test]
fn idempotent_despawn() {
    let mut queue = DespawnQueue::new();
    assert!(queue.request(5));
    assert!(!queue.request(5));
    assert_eq!(queue.len(), 1);
    assert!(queue.contains(5));
    assert_eq!(queue.drain(), vec![5]);
    assert_eq!(queue.len(), 0);
    assert!(!queue.contains(5));
}

#[test]
fn queue_keeps_order_of_first_request() {
    let mut queue = DespawnQueue::new();
    queue.request(3);
    queue.request(1);
    queue.request(3);
    queue.request(2);
    assert_eq!(queue.drain(), vec![3, 1, 2]);
}

#[test]
fn boxes_that_touch_overlap() {
    assert!(square(0, 0, 5).intersects(&square(10, 0, 5)));
    assert!(square(0, 0, 5).intersects(&square(10, 10, 5)));
    assert!(!square(0, 0, 5).intersects(&square(11, 0, 5)));
    assert!(!square(0, 0, 5).intersects(&square(0, -11, 5)));
    assert!(square(0, 0, 5).intersects(&square(3, 0, 5)));
}

#[test]
fn overlap_needs_both_axes() {
    assert!(!square(0, 0, 5).intersects(&square(3, 100, 5)));
    assert!(!square(0, 0, 5).intersects(&square(100, 3, 5)));
}

#[test]
fn overlap_at_the_ends_of_the_range() {
    let a = square(i64::MAX, i64::MAX, i64::MAX);
    let b = square(i64::MIN, i64::MIN, i64::MAX);
    assert!(!a.intersects(&b));
    assert!(a.intersects(&square(0, 0, 0)));
}

#[test]
fn projectile_hits_every_target_it_overlaps() {
    let projectiles = vec![Projectile { id: 1, bounds: square(0, 0, 5) }];
    let mut targets = vec![
        Target { id: 10, bounds: square(3, 0, 5), health: 3 },
        Target { id: 11, bounds: square(-3, 0, 5), health: 1 },
        Target { id: 12, bounds: square(50, 0, 5), health: 1 },
    ];
    let mut queue = DespawnQueue::new();
    resolve_collisions(&projectiles, &mut targets, &mut queue);
    assert_eq!(targets[0].health, 2);
    assert_eq!(targets[1].health, 0);
    assert_eq!(targets[2].health, 1);
    assert!(queue.contains(1));
    assert!(!queue.contains(10));
    assert!(queue.contains(11));
    assert!(!queue.contains(12));
    assert_eq!(queue.len(), 2);
}

#[test]
fn health_goes_below_zero() {
    let projectiles = vec![
        Projectile { id: 1, bounds: square(0, 0, 5) },
        Projectile { id: 2, bounds: square(1, 1, 5) },
        Projectile { id: 3, bounds: square(90, 90, 5) },
    ];
    let mut targets = vec![Target { id: 10, bounds: square(3, 0, 5), health: 1 }];
    let mut queue = DespawnQueue::new();
    resolve_collisions(&projectiles, &mut targets, &mut queue);
    assert_eq!(targets[0].health, -1);
    assert_eq!(targets[0].id, 10);
    assert_eq!(targets[0].bounds, square(3, 0, 5));
    assert!(queue.contains(1));
    assert!(queue.contains(2));
    assert!(!queue.contains(3));
    assert!(queue.contains(10));
    assert_eq!(queue.len(), 3);
}

#[test]
fn target_without_health_stays_until_hit() {
    let projectiles = vec![Projectile { id: 1, bounds: square(0, 0, 5) }];
    let mut targets = vec![Target { id: 10, bounds: square(50, 0, 5), health: 0 }];
    let mut queue = DespawnQueue::new();
    queue.request(99);
    resolve_collisions(&projectiles, &mut targets, &mut queue);
    assert_eq!(targets[0].health, 0);
    assert_eq!(queue.drain(), vec![99]);
}
