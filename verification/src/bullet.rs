//! A projectile's kinematic state and the integrator that advances it.
use vstd::prelude::*;
use crate::scalar::{clamp, sat_add, sat_mul};

verus! {

/// A point or an offset in the plane.
#[derive(Clone, Copy, Debug, PartialEq, Eq, Structural)]
pub struct Vector {
    pub x: i64,
    pub y: i64,
}

/// Signed speed along the projectile's own forward axis.
#[derive(Clone, Copy, Debug, PartialEq, Eq, Structural)]
pub struct Velocity(pub i64);

/// Change of `Velocity` per time unit.
#[derive(Clone, Copy, Debug, PartialEq, Eq, Structural)]
pub struct Acceleration(pub i64);

/// Change of orientation per time unit.
#[derive(Clone, Copy, Debug, PartialEq, Eq, Structural)]
pub struct AngularVelocity(pub i64);

/// Change of `AngularVelocity` per time unit.
#[derive(Clone, Copy, Debug, PartialEq, Eq, Structural)]
pub struct AngularAcceleration(pub i64);

/// A projectile: where it is, how it faces, and how both change.
#[derive(Clone, Copy, Debug, PartialEq, Eq, Structural)]
pub struct Bullet {
    pub id: u64,
    pub position: Vector,
    /// Half the width and half the height of the collision box.
    pub half_extent: Vector,
    pub orientation: i64,
    pub velocity: Velocity,
    pub acceleration: Acceleration,
    pub angular_velocity: AngularVelocity,
    pub angular_acceleration: AngularAcceleration,
}

impl Vector {
    /// The sum of two offsets, each coordinate saturating.
    pub open spec fn plus(self, other: Vector) -> Vector {
        Vector { x: clamp(self.x + other.x), y: clamp(self.y + other.y) }
    }

    /// This vector stretched by `k`, each coordinate saturating.
    pub open spec fn scaled(self, k: i64) -> Vector {
        Vector { x: clamp(self.x * k), y: clamp(self.y * k) }
    }

    pub fn translate(self, other: Vector) -> (r: Vector)
        ensures
            r == self.plus(other),
    {
        Vector { x: sat_add(self.x, other.x), y: sat_add(self.y, other.y) }
    }

    pub fn scale(self, k: i64) -> (r: Vector)
        ensures
            r == self.scaled(k),
    {
        Vector { x: sat_mul(self.x, k), y: sat_mul(self.y, k) }
    }
}

impl Bullet {
    /// The first half of a tick: both speeds take up their accelerations over
    /// `dt`, then the orientation takes up the new angular speed. The position
    /// stays.
    pub open spec fn turned(self, dt: i64) -> Bullet {
        let v = clamp(self.velocity.0 + clamp(self.acceleration.0 * dt));
        let w = clamp(self.angular_velocity.0 + clamp(self.angular_acceleration.0 * dt));
        Bullet {
            velocity: Velocity(v),
            angular_velocity: AngularVelocity(w),
            orientation: clamp(self.orientation + clamp(w * dt)),
            ..self
        }
    }

    /// The second half of a tick: the position moves along `axis` by the
    /// distance that the current speed covers in `dt`.
    pub open spec fn advanced(self, axis: Vector, dt: i64) -> Bullet {
        Bullet { position: self.position.plus(axis.scaled(clamp(self.velocity.0 * dt))), ..self }
    }

    /// Accelerates and rotates this projectile over `dt`.
    pub fn turn(&mut self, dt: i64)
        ensures
            *final(self) == old(self).turned(dt),
    {
        self.velocity = Velocity(sat_add(self.velocity.0, sat_mul(self.acceleration.0, dt)));
        let w: i64 = sat_add(self.angular_velocity.0, sat_mul(self.angular_acceleration.0, dt));
        self.angular_velocity = AngularVelocity(w);
        self.orientation = sat_add(self.orientation, sat_mul(w, dt));
    }

    /// Moves this projectile along `axis` over `dt`.
    pub fn advance(&mut self, axis: Vector, dt: i64)
        ensures
            *final(self) == old(self).advanced(axis, dt),
    {
        let distance: i64 = sat_mul(self.velocity.0, dt);
        self.position = self.position.translate(axis.scale(distance));
    }

    /// One tick of the integrator. `forward` gives the forward axis of an
    /// orientation; it is asked once, for the orientation that the projectile
    /// has after rotating, so the projectile travels the way it then faces.
    pub fn integrate<F: Fn(i64) -> Vector>(&mut self, dt: i64, forward: F)
        requires
            forall|o: i64| call_requires(forward, (o,)),
        ensures
            integrated(forward, *old(self), *final(self), dt),
    {
        self.turn(dt);
        let axis = forward(self.orientation);
        self.advance(axis, dt);
    }
}

/// Whether `after` is `before` one tick of `dt` later: accelerated and rotated
/// first, then moved along the axis that `forward` gave for the orientation
/// after rotating.
pub open spec fn integrated<F: Fn(i64) -> Vector>(
    forward: F,
    before: Bullet,
    after: Bullet,
    dt: i64,
) -> bool {
    exists|axis: Vector| #[trigger]
        call_ensures(forward, (before.turned(dt).orientation,), axis) && after == before.turned(
            dt,
        ).advanced(axis, dt)
}

/// A tick rotates before it moves: the projectile travels along the axis of
/// the orientation it has after the tick, at the speed it has after the tick.
pub proof fn lemma_moves_the_way_it_faces<F: Fn(i64) -> Vector>(
    forward: F,
    before: Bullet,
    after: Bullet,
    dt: i64,
)
    requires
        integrated(forward, before, after, dt),
    ensures
        after.orientation == before.turned(dt).orientation,
        after.velocity == before.turned(dt).velocity,
        exists|axis: Vector| #[trigger]
            call_ensures(forward, (after.orientation,), axis) && after.position
                == before.position.plus(axis.scaled(clamp(after.velocity.0 * dt))),
{
    let axis = choose|axis: Vector| #[trigger]
        call_ensures(forward, (before.turned(dt).orientation,), axis) && after == before.turned(
            dt,
        ).advanced(axis, dt);
    assert(call_ensures(forward, (after.orientation,), axis));
}

/// The integrator is a function of its inputs. Two ticks of one projectile
/// over one time step leave the same speeds and the same orientation, and the
/// axis is asked for that one orientation both times; where `forward` has one
/// answer for it, the two results are the same in every field.
pub proof fn lemma_integrator_deterministic<F: Fn(i64) -> Vector>(
    forward: F,
    before: Bullet,
    dt: i64,
    once: Bullet,
    again: Bullet,
)
    requires
        integrated(forward, before, once, dt),
        integrated(forward, before, again, dt),
    ensures
        once.orientation == again.orientation,
        once.velocity == again.velocity,
        once.angular_velocity == again.angular_velocity,
        once == (Bullet { position: once.position, ..again }),
        (forall|a: Vector, b: Vector|
            call_ensures(forward, (before.turned(dt).orientation,), a) && call_ensures(
                forward,
                (before.turned(dt).orientation,),
                b,
            ) ==> a == b) ==> once == again,
{
}

/// Two passes of the integrator over the same projectiles and the same time
/// step give the same projectiles, where `forward` has one answer for each
/// orientation.
pub proof fn lemma_move_bullets_deterministic<F: Fn(i64) -> Vector>(
    forward: F,
    before: Seq<Bullet>,
    dt: i64,
    once: Seq<Bullet>,
    again: Seq<Bullet>,
)
    requires
        once.len() == before.len(),
        again.len() == before.len(),
        forall|i: int| 0 <= i < before.len() ==> #[trigger] integrated(forward, before[i], once[i], dt),
        forall|i: int| 0 <= i < before.len() ==> #[trigger] integrated(forward, before[i], again[i], dt),
        forall|o: i64, a: Vector, b: Vector|
            call_ensures(forward, (o,), a) && call_ensures(forward, (o,), b) ==> a == b,
    ensures
        once == again,
{
    assert forall|i: int| 0 <= i < before.len() implies once[i] == again[i] by {
        assert(integrated(forward, before[i], once[i], dt));
        assert(integrated(forward, before[i], again[i], dt));
    }
    assert(once =~= again);
}

/// Runs the integrator once on every projectile, each as `Bullet::integrate`
/// does.
pub fn move_bullets<F: Fn(i64) -> Vector>(bullets: &mut Vec<Bullet>, dt: i64, forward: F)
    requires
        forall|o: i64| call_requires(forward, (o,)),
    ensures
        final(bullets).len() == old(bullets).len(),
        forall|i: int|
            0 <= i < old(bullets).len() ==> #[trigger] integrated(
                forward,
                old(bullets)[i],
                final(bullets)[i],
                dt,
            ),
{
    let n: usize = bullets.len();
    let mut k: usize = 0;
    while k < n
        invariant
            k <= n,
            n == bullets.len(),
            n == old(bullets).len(),
            forall|o: i64| call_requires(forward, (o,)),
            forall|i: int| k <= i < n ==> bullets[i] == old(bullets)[i],
            forall|i: int|
                0 <= i < k ==> #[trigger] integrated(forward, old(bullets)[i], bullets[i], dt),
        decreases n - k,
    {
        let mut b: Bullet = bullets[k];
        b.turn(dt);
        let axis = forward(b.orientation);
        b.advance(axis, dt);
        bullets.set(k, b);
        assert(integrated(forward, old(bullets)[k as int], b, dt));
        k += 1;
    }
}

} // verus!
