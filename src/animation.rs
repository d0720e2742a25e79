//! The data that flows through the pipeline.

use vstd::prelude::*;

verus! {

/// Number of frames of an animation by default.
pub const DEFAULT_LENGTH: u8 = 60;

/// Default frame period in nanoseconds: a frame advances once more than
/// this much time has passed since the last advance (a cadence of 60 Hz).
pub const DEFAULT_PERIOD_NANOS: u64 = 16_666_666;

/// Default capacity of the admission queue.
pub const DEFAULT_CAPACITY: usize = 10;

/// A screen coordinate, in physical pixels.
#[derive(Clone, Copy, Debug, PartialEq, Eq, Structural)]
pub struct Position {
    pub x: i32,
    pub y: i32,
}

/// A request for a new animation, handed from the trigger to the scheduler.
/// `at` is the admission time in nanoseconds on the pipeline's clock.
#[derive(Clone, Copy, Debug, PartialEq, Eq, Structural)]
pub struct Admission {
    pub id: u64,
    pub position: Position,
    pub at: u64,
}

/// An animation in flight, owned by the scheduler.
#[derive(Clone, Copy, Debug, PartialEq, Eq, Structural)]
pub struct Animation {
    pub id: u64,
    pub frame: u8,
    pub position: Position,
    pub last_update: u64,
}

/// What the scheduler tells the consumer.
#[derive(Clone, Copy, Debug, PartialEq, Eq, Structural)]
pub enum Notification {
    /// Show frame `frame` of animation `id` at `position`.
    Animate { id: u64, frame: u8, position: Position },
    /// Animation `id` is over: stop showing it.
    Clear { id: u64 },
}

impl Notification {
    pub open spec fn subject(self) -> u64 {
        match self {
            Notification::Animate { id, .. } => id,
            Notification::Clear { id } => id,
        }
    }

    /// The animation the notification is about.
    pub fn id(&self) -> (r: u64)
        ensures
            r == self.subject(),
    {
        match self {
            Notification::Animate { id, .. } => *id,
            Notification::Clear { id } => *id,
        }
    }
}

} // verus!
