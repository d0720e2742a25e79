//! The trigger: a latch over raw input events, run inside the global input
//! hook. It does constant work per event and never blocks.

use crate::animation::{Admission, Position};
use crate::registry::array_queue_push;
use crossbeam::queue::ArrayQueue;
use vstd::prelude::*;

verus! {

/// A raw input event, as the input hook classifies it against the configured
/// gesture (a modifier key and a pointer button).
#[derive(Clone, Copy, Debug, PartialEq, Eq, Structural)]
pub enum InputEvent {
    /// The modifier key went down.
    ArmPressed,
    /// The modifier key went up.
    ArmReleased,
    /// The pointer button went down.
    ActionPressed,
    /// Anything else.
    Other,
}

/// The trigger's own state: whether the modifier is held, and the last
/// animation id handed out (ids start at 1 and only grow).
pub struct TriggerSource {
    armed: bool,
    last_id: u64,
}

impl TriggerSource {
    pub closed spec fn is_armed(&self) -> bool {
        self.armed
    }

    pub closed spec fn last_issued(&self) -> u64 {
        self.last_id
    }

    /// A trigger with the modifier released and no id handed out.
    pub fn new() -> (r: TriggerSource)
        ensures
            !r.is_armed(),
            r.last_issued() == 0,
    {
        TriggerSource { armed: false, last_id: 0 }
    }

    pub fn armed(&self) -> (r: bool)
        ensures
            r == self.is_armed(),
    {
        self.armed
    }

    pub fn last_id(&self) -> (r: u64)
        ensures
            r == self.last_issued(),
    {
        self.last_id
    }

    /// Feeds one input event to the latch. Returns whether it completes the
    /// gesture: the button pressed while the modifier is held.
    pub fn observe(&mut self, e: InputEvent) -> (fire: bool)
        ensures
            fire == (e == InputEvent::ActionPressed && old(self).is_armed()),
            final(self).is_armed() == match e {
                InputEvent::ArmPressed => true,
                InputEvent::ArmReleased => false,
                _ => old(self).is_armed(),
            },
            final(self).last_issued() == old(self).last_issued(),
    {
        match e {
            InputEvent::ArmPressed => {
                self.armed = true;
                false
            },
            InputEvent::ArmReleased => {
                self.armed = false;
                false
            },
            InputEvent::ActionPressed => self.armed,
            InputEvent::Other => false,
        }
    }

    /// Builds the request for a new animation at `position`, made at time
    /// `now`, with the next id. `None` once every id has been handed out.
    pub fn next_admission(&mut self, position: Position, now: u64) -> (r: Option<Admission>)
        ensures
            final(self).is_armed() == old(self).is_armed(),
            old(self).last_issued() < u64::MAX ==> {
                &&& final(self).last_issued() == old(self).last_issued() + 1
                &&& r == Some(Admission { id: final(self).last_issued(), position, at: now })
            },
            old(self).last_issued() == u64::MAX ==> {
                &&& final(self).last_issued() == old(self).last_issued()
                &&& r is None
            },
    {
        if self.last_id == u64::MAX {
            None
        } else {
            self.last_id = self.last_id + 1;
            Some(Admission { id: self.last_id, position, at: now })
        }
    }

    /// Attempts to admit a new animation at `position` into the queue without
    /// blocking. Every attempt uses up an id; the id is returned only when the
    /// queue took the request. A full queue drops it silently: the caller
    /// then plays no sound and wakes nobody.
    pub fn try_admit(&mut self, queue: &ArrayQueue<Admission>, position: Position, now: u64) -> (r:
        Option<u64>)
        ensures
            final(self).is_armed() == old(self).is_armed(),
            old(self).last_issued() < u64::MAX ==> final(self).last_issued() == old(
                self,
            ).last_issued() + 1,
            old(self).last_issued() == u64::MAX ==> final(self).last_issued() == old(
                self,
            ).last_issued() && r is None,
            r is Some ==> r == Some(final(self).last_issued()) && old(self).last_issued()
                < u64::MAX,
    {
        match self.next_admission(position, now) {
            None => None,
            Some(a) => match array_queue_push(queue, a) {
                Ok(()) => Some(a.id),
                Err(_) => None,
            },
        }
    }
}

} // verus!
