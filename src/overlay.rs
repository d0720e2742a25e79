//! The consumer's side: the animations currently shown, built only from the
//! notifications the scheduler delivers, in order.

use crate::animation::{Notification, Position};
use crate::scheduler::{anchor, follows_lifecycle, lifecycle_note};
use std::collections::HashMap;
use vstd::prelude::*;

verus! {

broadcast use vstd::std_specs::hash::group_hash_axioms;

/// What is shown of one animation: a frame, centred on a position.
#[derive(Clone, Copy, Debug, PartialEq, Eq, Structural)]
pub struct Shown {
    pub frame: u8,
    pub position: Position,
}

/// The map from animation id to what is shown of it.
pub open spec fn applied(m: Map<u64, Shown>, n: Notification) -> Map<u64, Shown> {
    match n {
        Notification::Animate { id, frame, position } => m.insert(id, Shown { frame, position }),
        Notification::Clear { id } => m.remove(id),
    }
}

/// The map after a sequence of notifications, applied in order.
pub open spec fn applied_all(m: Map<u64, Shown>, ns: Seq<Notification>) -> Map<u64, Shown>
    decreases ns.len(),
{
    if ns.len() == 0 {
        m
    } else {
        applied(applied_all(m, ns.drop_last()), ns.last())
    }
}

/// The animations on screen, by id.
pub struct Overlay {
    shown: HashMap<u64, Shown>,
}

impl View for Overlay {
    type V = Map<u64, Shown>;

    closed spec fn view(&self) -> Map<u64, Shown> {
        self.shown@
    }
}

impl Overlay {
    /// An overlay that shows nothing.
    pub fn new() -> (r: Overlay)
        ensures
            r@ == Map::<u64, Shown>::empty(),
    {
        Overlay { shown: HashMap::new() }
    }

    /// Applies one notification: `Animate` shows (or moves on) the animation
    /// at the given frame and position, `Clear` stops showing it; a `Clear`
    /// for an id not shown changes nothing. Returns whether anything changed,
    /// which is when a repaint is due.
    pub fn apply(&mut self, n: Notification) -> (changed: bool)
        ensures
            final(self)@ == applied(old(self)@, n),
            changed == (final(self)@ != old(self)@),
    {
        match n {
            Notification::Animate { id, frame, position } => {
                let s = Shown { frame, position };
                let prev = self.shown.insert(id, s);
                match prev {
                    Some(p) => {
                        proof {
                            if p == s {
                                assert(self@ =~= old(self)@);
                            } else {
                                assert(self@[id] != old(self)@[id]);
                            }
                        }
                        p != s
                    },
                    None => {
                        proof {
                            assert(self@.contains_key(id));
                        }
                        true
                    },
                }
            },
            Notification::Clear { id } => {
                let prev = self.shown.remove(&id);
                match prev {
                    Some(_) => {
                        proof {
                            assert(!self@.contains_key(id));
                        }
                        true
                    },
                    None => {
                        proof {
                            assert(self@ =~= old(self)@);
                        }
                        false
                    },
                }
            },
        }
    }

    /// What is shown of animation `id`, if anything.
    pub fn get(&self, id: u64) -> (r: Option<Shown>)
        ensures
            r == (if self@.contains_key(id) {
                Some(self@[id])
            } else {
                None
            }),
    {
        match self.shown.get(&id) {
            Some(s) => Some(*s),
            None => None,
        }
    }

    /// The number of animations shown.
    pub fn len(&self) -> (r: usize)
        ensures
            r == self@.len(),
    {
        self.shown.len()
    }

    /// The animations shown, by id, for drawing.
    pub fn entries(&self) -> (r: &HashMap<u64, Shown>)
        ensures
            r@ == self@,
    {
        &self.shown
    }
}

/// Applying, in order, what the scheduler emitted about one animation to an
/// overlay that did not show it: the animation is shown at its latest frame
/// and its admission position while its `Clear` has not come, and is gone
/// once it has.
pub proof fn lemma_overlay_follows_lifecycle(
    m: Map<u64, Shown>,
    h: Seq<Notification>,
    id: u64,
    length: u8,
)
    requires
        follows_lifecycle(h, id, length),
        !m.contains_key(id),
    ensures
        applied_all(m, h).contains_key(id) == (h.len() <= length),
        h.len() <= length ==> applied_all(m, h)[id] == (Shown {
            frame: (h.len() - 1) as u8,
            position: anchor(h[0]),
        }),
    decreases h.len(),
{
    let last = h[h.len() - 1];
    assert(last == lifecycle_note(id, anchor(h[0]), length, h.len() - 1));
    if h.len() == 1 {
        assert(h.drop_last() =~= Seq::<Notification>::empty());
    } else {
        let p = h.drop_last();
        assert(p[0] == h[0]);
        assert forall|k: int| 0 <= k < p.len() implies #[trigger] p[k] == lifecycle_note(
            id,
            anchor(p[0]),
            length,
            k,
        ) by {
            assert(p[k] == h[k]);
        }
        lemma_overlay_follows_lifecycle(m, p, id, length);
    }
}

} // verus!
