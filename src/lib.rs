//! The animation scheduling engine of a desktop "ping" overlay: a global input
//! trigger admits short animations into a bounded queue, a scheduler advances
//! them on a fixed cadence, and a consumer keeps the set of visible frames.

pub mod animation;
pub mod overlay;
pub mod registry;
pub mod scheduler;
pub mod trigger;
