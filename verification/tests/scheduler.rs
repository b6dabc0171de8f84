use bullet_sim::actions::{
    bullet_actions, spawn_bullet, BulletAction, BulletActionType, BulletActions,
};
use bullet_sim::bullet::{
    Acceleration, AngularAcceleration, AngularVelocity, Bullet, Vector, Velocity,
};
use bullet_sim::despawn::DespawnQueue;

fn still(id: u64) -> Bullet {
    Bullet {
        id,
        position: Vector { x: 1, y: 2 },
        half_extent: Vector { x: 1, y: 1 },
        orientation: 3,
        velocity: Velocity(4),
        acceleration: Acceleration(5),
        angular_velocity: AngularVelocity(6),
        angular_acceleration: AngularAcceleration(7),
    }
}

#[test]
fn new_program_waits_on_first_step() {
    let p = BulletActions::new(
        vec![BulletAction(BulletActionType::Rotate(90), 10), BulletAction(BulletActionType::Despawn, 4)],
        true,
    );
    assert_eq!(p.action_index(), 0);
    assert_eq!(p.len(), 2);
    assert!(p.repeat());
    assert!(!p.stopped());
    assert_eq!(p.remaining(), Some(10));
}

#[test]
fn step_waits_until_timer_is_below_zero() {
    let mut p = BulletActions::new(vec![BulletAction(BulletActionType::Rotate(90), 10)], true);
    assert_eq!(p.tick(4), None);
    assert_eq!(p.remaining(), Some(6));
    assert_eq!(p.tick(6), None);
    assert_eq!(p.remaining(), Some(0));
    assert_eq!(p.action_index(), 0);
    assert_eq!(p.tick(1), Some(BulletActionType::Rotate(90)));
}

#[test]
fn single_step_per_tick() {
    let steps = vec![
        BulletAction(BulletActionType::ChangeVelocity(1), 1),
        BulletAction(BulletActionType::ChangeVelocity(10), 1),
        BulletAction(BulletActionType::ChangeVelocity(100), 1),
    ];
    let mut p = BulletActions::new(steps, false);
    assert_eq!(p.tick(100), Some(BulletActionType::ChangeVelocity(1)));
    assert_eq!(p.action_index(), 1);
    assert!(!p.stopped());
}

#[test]
fn overshoot_is_not_carried_over() {
    let steps = vec![
        BulletAction(BulletActionType::Rotate(1), 5),
        BulletAction(BulletActionType::Rotate(2), 5),
    ];
    let mut p = BulletActions::new(steps, false);
    assert_eq!(p.tick(8), Some(BulletActionType::Rotate(1)));
    assert_eq!(p.remaining(), Some(5));
    assert_eq!(p.tick(5), None);
    assert_eq!(p.tick(1), Some(BulletActionType::Rotate(2)));
}

#[test]
fn repeat_wraparound() {
    let steps = vec![
        BulletAction(BulletActionType::Rotate(1), 2),
        BulletAction(BulletActionType::Rotate(2), 3),
    ];
    let mut p = BulletActions::new(steps, true);
    assert_eq!(p.tick(3), Some(BulletActionType::Rotate(1)));
    assert_eq!(p.action_index(), 1);
    assert_eq!(p.tick(4), Some(BulletActionType::Rotate(2)));
    assert_eq!(p.action_index(), 0);
    assert!(!p.stopped());
    let mut fired = 0;
    for _ in 0..10 {
        if p.tick(4).is_some() {
            fired += 1;
        }
        assert!(p.action_index() < 2);
        assert!(!p.stopped());
    }
    assert_eq!(fired, 10);
    assert_eq!(p.action_index(), 0);
}

#[test]
fn repeated_step_waits_its_duration_again() {
    let steps = vec![
        BulletAction(BulletActionType::ChangeVelocity(1), 2),
        BulletAction(BulletActionType::ChangeVelocity(2), 2),
    ];
    let mut bullets = vec![still(1)];
    bullets[0].velocity = Velocity(0);
    let mut programs = vec![BulletActions::new(steps, true)];
    let mut queue = DespawnQueue::new();
    let mut speeds = Vec::new();
    for _ in 0..7 {
        bullet_actions(&mut bullets, &mut programs, 1, &mut queue);
        speeds.push(bullets[0].velocity.0);
    }
    assert_eq!(speeds, vec![0, 0, 1, 1, 1, 3, 3]);
    assert_eq!(programs[0].action_index(), 0);
    assert_eq!(programs[0].remaining(), Some(1));
    assert_eq!(queue.len(), 0);
    for _ in 0..2 {
        bullet_actions(&mut bullets, &mut programs, 1, &mut queue);
    }
    assert_eq!(bullets[0].velocity, Velocity(4));
    assert_eq!(programs[0].action_index(), 1);
    assert_eq!(programs[0].remaining(), Some(2));
}

#[test]
fn step_entered_after_overshoot_starts_from_its_duration() {
    let steps = vec![
        BulletAction(BulletActionType::Rotate(1), 2),
        BulletAction(BulletActionType::Rotate(2), 3),
    ];
    let mut p = BulletActions::new(steps, true);
    assert_eq!(p.tick(10), Some(BulletActionType::Rotate(1)));
    assert_eq!(p.remaining(), Some(3));
    assert_eq!(p.tick(10), Some(BulletActionType::Rotate(2)));
    assert_eq!(p.action_index(), 0);
    assert_eq!(p.remaining(), Some(2));
    assert_eq!(p.tick(2), None);
    assert_eq!(p.remaining(), Some(0));
}

#[test]
fn non_repeat_termination() {
    let mut bullets: Vec<Bullet> = Vec::new();
    let mut programs: Vec<BulletActions> = Vec::new();
    spawn_bullet(
        &mut bullets,
        &mut programs,
        still(11),
        vec![BulletAction(BulletActionType::SetVelocity(50), 2)],
        false,
    );
    let mut queue = DespawnQueue::new();
    bullet_actions(&mut bullets, &mut programs, 2, &mut queue);
    assert_eq!(queue.len(), 0);
    assert_eq!(bullets[0].velocity, Velocity(4));
    bullet_actions(&mut bullets, &mut programs, 1, &mut queue);
    assert_eq!(bullets[0].velocity, Velocity(50));
    assert!(programs[0].stopped());
    assert_eq!(programs[0].remaining(), None);
    assert_eq!(queue.drain(), vec![11]);
    bullets[0].velocity = Velocity(0);
    bullet_actions(&mut bullets, &mut programs, 100, &mut queue);
    assert_eq!(bullets[0].velocity, Velocity(0));
    assert_eq!(queue.len(), 0);
    assert_eq!(programs[0].tick(100), None);
}

#[test]
fn despawn_effect_stops_program() {
    let steps = vec![
        BulletAction(BulletActionType::Despawn, 0),
        BulletAction(BulletActionType::Rotate(2), 0),
    ];
    let mut bullets = vec![still(1), still(2)];
    let mut programs = vec![
        BulletActions::new(steps, true),
        BulletActions::new(vec![BulletAction(BulletActionType::Rotate(5), 9)], true),
    ];
    let mut queue = DespawnQueue::new();
    bullet_actions(&mut bullets, &mut programs, 1, &mut queue);
    assert!(programs[0].stopped());
    assert!(!programs[1].stopped());
    assert_eq!(bullets[0], still(1));
    assert_eq!(bullets[1], still(2));
    assert!(queue.contains(1));
    assert!(!queue.contains(2));
    assert_eq!(queue.len(), 1);
}

#[test]
fn spawn_bullet_appends_entity_and_program() {
    let mut bullets = vec![still(1)];
    let mut programs = vec![BulletActions::new(vec![BulletAction(BulletActionType::Despawn, 1)], false)];
    spawn_bullet(
        &mut bullets,
        &mut programs,
        still(2),
        vec![BulletAction(BulletActionType::Rotate(90), 1000)],
        true,
    );
    assert_eq!(bullets, vec![still(1), still(2)]);
    assert_eq!(programs.len(), 2);
    assert_eq!(programs[1].action_index(), 0);
    assert_eq!(programs[1].remaining(), Some(1000));
    assert!(programs[1].repeat());
}

#[test]
fn every_effect() {
    let cases = vec![
        (BulletActionType::SetVelocity(-9), Bullet { velocity: Velocity(-9), ..still(1) }),
        (BulletActionType::SetAcceleration(-9), Bullet { acceleration: Acceleration(-9), ..still(1) }),
        (
            BulletActionType::SetAngularVelocity(-9),
            Bullet { angular_velocity: AngularVelocity(-9), ..still(1) },
        ),
        (
            BulletActionType::SetAngularAcceleration(-9),
            Bullet { angular_acceleration: AngularAcceleration(-9), ..still(1) },
        ),
        (BulletActionType::ChangeVelocity(10), Bullet { velocity: Velocity(14), ..still(1) }),
        (BulletActionType::ChangeAcceleration(10), Bullet { acceleration: Acceleration(15), ..still(1) }),
        (
            BulletActionType::ChangeAngularVelocity(10),
            Bullet { angular_velocity: AngularVelocity(16), ..still(1) },
        ),
        (
            BulletActionType::ChangeAngularAcceleration(10),
            Bullet { angular_acceleration: AngularAcceleration(17), ..still(1) },
        ),
        (BulletActionType::Rotate(-13), Bullet { orientation: -10, ..still(1) }),
        (
            BulletActionType::Move(Vector { x: 10, y: -10 }),
            Bullet { position: Vector { x: 11, y: -8 }, ..still(1) },
        ),
        (BulletActionType::Despawn, still(1)),
    ];
    for (effect, expected) in cases {
        let mut b = still(1);
        b.apply(effect);
        assert_eq!(b, expected);
    }
}

#[test]
fn change_saturates() {
    let mut b = still(1);
    b.velocity = Velocity(i64::MAX);
    b.apply(BulletActionType::ChangeVelocity(1));
    assert_eq!(b.velocity, Velocity(i64::MAX));
}

#[test]
fn timer_stops_at_lowest_value() {
    let mut p = BulletActions::new(vec![BulletAction(BulletActionType::Rotate(1), i64::MIN)], true);
    assert_eq!(p.tick(1), Some(BulletActionType::Rotate(1)));
    assert_eq!(p.remaining(), Some(i64::MIN));
}
