pub mod collider;
pub mod counter;
pub mod mover;
pub mod particle;
pub mod partition;
mod rng;
pub mod system;

pub use particle::Particle;
