//! Deterministic rollback netcode core for a two-player shooter.
//!
//! The crate keeps two independently ticking simulations in agreement. Local
//! controls are packed into one byte per frame, exchanged as small datagrams,
//! buffered per frame, and fed to a fixed-step simulation. When a remote input
//! turns out to differ from its prediction, the affected frames are simulated
//! again from a stored snapshot.

pub mod bullet;
pub mod cooldown;
pub mod frame_buffer;
pub mod input;
pub mod network;
pub mod player;
pub mod scheduler;
pub mod viewport;
pub mod wire;
pub mod world;
