//! The motion and combat core of a top-down projectile simulation.
//!
//! All quantities are signed 64-bit integers in units that the caller picks:
//! a time step counts the caller's time units, a speed is a distance per time
//! unit, an angle counts the caller's angle units. Every sum and product
//! saturates at the ends of the 64-bit range, so each operation is total and
//! gives the same result on every machine.
pub mod scalar;
pub mod bullet;
pub mod actions;
pub mod despawn;
pub mod collision;
pub mod commit;
pub mod world;
