//! Gameplay core of a third-person shooter: collision layers, projectile aim, spawning
//! and lifetime, and the follow camera rig, over fixed-point integer geometry.
pub mod aim;
pub mod frame;
pub mod geometry;
pub mod layers;
pub mod projectile;
pub mod rig;
pub mod spawn;
