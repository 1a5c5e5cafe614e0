//! Spatial interest management for a server-authoritative simulation.
//!
//! The world is cut into square grid cells, every cell names a room, and each
//! tick the tracker decides which rooms a client is subscribed to and which
//! single room holds each entity.

pub mod grid;
pub mod directory;
pub mod window;
pub mod membership;
pub mod tracker;
pub mod bootstrap;
pub mod remote_file;
pub mod movement;
