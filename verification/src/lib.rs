//! Deterministic core of a paddle-and-ball brick-breaking arcade game.
//!
//! The engine is exact integer arithmetic throughout: world coordinates are
//! fixed-point numbers with [`math::FP_SCALE`] sub-units per world unit, so a
//! tick of the simulation is a pure function of the previous state and the
//! controller snapshot.  The host (windowing, rendering, audio) feeds raw
//! input edges in and consumes the emitted messages and entity geometry.

pub mod input;
pub mod math;
pub mod menu;
pub mod session;
pub mod state;
pub mod system;
