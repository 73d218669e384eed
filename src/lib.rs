//! A frame-stepped top-down shooter simulation: a player moved by four
//! direction keys, a crosshair that follows the pointer, bullets fired on a
//! cooldown, a lifetime and bounds reaper, and an axis-aligned collision scan
//! that removes hit enemies.
//!
//! All quantities are integers. Positions are in nano-units (`POS_SCALE` per
//! world unit), directions in thousandths (`DIR_SCALE` is a unit vector's
//! length), speeds in world units per second and time in microseconds, so that
//! a displacement `direction * speed * dt` is exact in position units.
pub mod geom;
pub mod timer;
pub mod player;
pub mod enemies;
pub mod rng;
pub mod world;
