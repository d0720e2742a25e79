//! The scheduler: owns the animations in flight, takes new ones from the
//! admission queue, advances each on its own cadence and tells the consumer
//! what to show. Only the scheduler's thread touches this state.

use crate::animation::{Admission, Animation, Notification, Position};
use crate::registry::{array_queue_capacity, array_queue_is_empty, array_queue_pop};
use crossbeam::queue::ArrayQueue;
use vstd::prelude::*;

verus! {

/// Whether more than one period has passed since the animation last advanced.
/// A clock reading before `last_update` counts as no time passed.
pub open spec fn is_due(a: Animation, now: u64, period: u64) -> bool {
    now as int - a.last_update as int > period as int
}

/// The animation after one step at time `now`: one frame further when due.
pub open spec fn advance(a: Animation, now: u64, period: u64) -> Animation {
    if is_due(a, now, period) {
        Animation { id: a.id, frame: (a.frame + 1) as u8, position: a.position, last_update: now }
    } else {
        a
    }
}

/// What one step at time `now` emits for one animation: nothing when not due,
/// the next frame while it is below `length`, else the clear.
pub open spec fn note_for(a: Animation, now: u64, period: u64, length: u8) -> Seq<Notification> {
    if !is_due(a, now, period) {
        seq![]
    } else if a.frame + 1 < length {
        seq![Notification::Animate { id: a.id, frame: (a.frame + 1) as u8, position: a.position }]
    } else {
        seq![Notification::Clear { id: a.id }]
    }
}

/// What one step emits for a sequence of animations, in their order.
pub open spec fn notes_for(s: Seq<Animation>, now: u64, period: u64, length: u8) -> Seq<
    Notification,
>
    decreases s.len(),
{
    if s.len() == 0 {
        seq![]
    } else {
        notes_for(s.drop_last(), now, period, length) + note_for(s.last(), now, period, length)
    }
}

/// The animations still in flight after one step, in their order.
pub open spec fn survivors(s: Seq<Animation>, now: u64, period: u64, length: u8) -> Seq<Animation>
    decreases s.len(),
{
    if s.len() == 0 {
        seq![]
    } else {
        let rest = survivors(s.drop_last(), now, period, length);
        let b = advance(s.last(), now, period);
        if b.frame < length {
            rest.push(b)
        } else {
            rest
        }
    }
}

/// Where an `Animate` notification is anchored.
pub open spec fn anchor(n: Notification) -> Position {
    match n {
        Notification::Animate { position, .. } => position,
        Notification::Clear { .. } => Position { x: 0, y: 0 },
    }
}

/// The `k`-th notification in the life of animation `id`: frames `0` up to
/// `length - 1` at one position, then the clear.
pub open spec fn lifecycle_note(id: u64, position: Position, length: u8, k: int) -> Notification {
    if k < length {
        Notification::Animate { id, frame: k as u8, position }
    } else {
        Notification::Clear { id }
    }
}

/// The notifications emitted for `id` so far are a non-empty prefix of its
/// lifecycle: frames counting up by one from 0, never above `length - 1`,
/// all at the first one's position, and at most one clear, last.
pub open spec fn follows_lifecycle(h: Seq<Notification>, id: u64, length: u8) -> bool {
    &&& 1 <= h.len() <= length + 1
    &&& forall|k: int| 0 <= k < h.len() ==> #[trigger] h[k] == lifecycle_note(id, anchor(h[0]), length, k)
}

/// One step's worth of notifications added to a history entry keeps it on
/// the lifecycle.
proof fn lemma_extend(h: Seq<Notification>, a: Animation, now: u64, period: u64, length: u8)
    requires
        follows_lifecycle(h, a.id, length),
        h.len() == a.frame + 1,
        anchor(h[0]) == a.position,
        a.frame < length,
    ensures
        follows_lifecycle(h + note_for(a, now, period, length), a.id, length),
        anchor((h + note_for(a, now, period, length))[0]) == a.position,
        advance(a, now, period).frame < length ==> (h + note_for(a, now, period, length)).len()
            == advance(a, now, period).frame + 1,
        advance(a, now, period).frame >= length ==> (h + note_for(a, now, period, length)).len()
            == length + 1,
{
    let e = h + note_for(a, now, period, length);
    assert(e[0] == h[0]);
    assert forall|k: int| 0 <= k < e.len() implies #[trigger] e[k] == lifecycle_note(
        a.id,
        anchor(e[0]),
        length,
        k,
    ) by {
        if k < h.len() {
            assert(e[k] == h[k]);
        }
    }
}

/// The animation scheduler.
pub struct Scheduler {
    period: u64,
    length: u8,
    active: Vec<Animation>,
    last_admitted: u64,
    history: Ghost<Map<u64, Seq<Notification>>>,
}

impl Scheduler {
    /// The frame period, in nanoseconds.
    pub closed spec fn period_spec(&self) -> u64 {
        self.period
    }

    /// The number of frames of each animation.
    pub closed spec fn length_spec(&self) -> u8 {
        self.length
    }

    /// The animations in flight, oldest first.
    pub closed spec fn in_flight(&self) -> Seq<Animation> {
        self.active@
    }

    /// The id of the newest animation taken in (0 before any).
    pub closed spec fn newest(&self) -> u64 {
        self.last_admitted
    }

    /// For each id ever taken in, every notification emitted about it, in order.
    pub closed spec fn history(&self) -> Map<u64, Seq<Notification>> {
        self.history@
    }

    /// Whether the animation `id` is in flight.
    pub open spec fn tracks(&self, id: u64) -> bool {
        exists|i: int| 0 <= i < self.in_flight().len() && #[trigger] self.in_flight()[i].id == id
    }

    pub closed spec fn wf(&self) -> bool {
        let act = self.active@;
        let h = self.history@;
        &&& 1 <= self.length
        &&& forall|i: int| 0 <= i < act.len() ==> #[trigger] act[i].frame < self.length
        &&& forall|i: int, j: int| 0 <= i < j < act.len() ==> act[i].id < act[j].id
        &&& forall|i: int|
            0 <= i < act.len() ==> {
                &&& h.contains_key(#[trigger] act[i].id)
                &&& h[act[i].id].len() == act[i].frame + 1
                &&& anchor(h[act[i].id][0]) == act[i].position
            }
        &&& forall|id: u64| #[trigger]
            h.contains_key(id) ==> 1 <= id <= self.last_admitted && follows_lifecycle(
                h[id],
                id,
                self.length,
            )
        &&& forall|id: u64| #[trigger]
            h.contains_key(id) && h[id].len() != self.length + 1 ==> self.tracks(id)
    }

    /// A scheduler with nothing in flight, that advances each animation once
    /// more than `period` nanoseconds have passed, through frames `0` to
    /// `length - 1`.
    pub fn new(period: u64, length: u8) -> (r: Scheduler)
        requires
            1 <= length,
        ensures
            r.wf(),
            r.period_spec() == period,
            r.length_spec() == length,
            r.in_flight() == Seq::<Animation>::empty(),
            r.newest() == 0,
            r.history() == Map::<u64, Seq<Notification>>::empty(),
    {
        Scheduler {
            period,
            length,
            active: Vec::new(),
            last_admitted: 0,
            history: Ghost(Map::empty()),
        }
    }

    pub fn period(&self) -> (r: u64)
        ensures
            r == self.period_spec(),
    {
        self.period
    }

    pub fn length(&self) -> (r: u8)
        ensures
            r == self.length_spec(),
    {
        self.length
    }

    /// The animations in flight, oldest first.
    pub fn animations(&self) -> (r: &Vec<Animation>)
        ensures
            r@ == self.in_flight(),
    {
        &self.active
    }

    /// Whether nothing is in flight.
    pub fn is_idle(&self) -> (r: bool)
        ensures
            r == (self.in_flight().len() == 0),
    {
        self.active.len() == 0
    }
    /// Takes in one admitted request. A request whose id is not above every
    /// id taken in before is stale and ignored. Otherwise the animation starts
    /// at frame 0, timed from its admission, and its first frame is announced.
    pub fn accept(&mut self, a: Admission) -> (r: Option<Notification>)
        requires
            old(self).wf(),
        ensures
            final(self).wf(),
            final(self).period_spec() == old(self).period_spec(),
            final(self).length_spec() == old(self).length_spec(),
            a.id > old(self).newest() ==> {
                &&& r == Some(Notification::Animate { id: a.id, frame: 0, position: a.position })
                &&& final(self).in_flight() == old(self).in_flight().push(
                    Animation { id: a.id, frame: 0, position: a.position, last_update: a.at },
                )
                &&& final(self).newest() == a.id
                &&& !old(self).history().contains_key(a.id)
                &&& final(self).history() == old(self).history().insert(a.id, seq![r->0])
            },
            a.id <= old(self).newest() ==> {
                &&& r is None
                &&& final(self).in_flight() == old(self).in_flight()
                &&& final(self).newest() == old(self).newest()
                &&& final(self).history() == old(self).history()
            },
    {
        if a.id <= self.last_admitted {
            return None;
        }
        let n = Notification::Animate { id: a.id, frame: 0, position: a.position };
        let ghost s0 = *self;
        self.active.push(Animation { id: a.id, frame: 0, position: a.position, last_update: a.at });
        self.last_admitted = a.id;
        self.history = Ghost(self.history@.insert(a.id, seq![n]));
        proof {
            let act = self.active@;
            let h = self.history@;
            assert(!s0.history@.contains_key(a.id));
            assert(follows_lifecycle(seq![n], a.id, self.length)) by {
                assert(seq![n][0] == n);
            }
            assert forall|i: int| 0 <= i < act.len() implies {
                &&& h.contains_key(#[trigger] act[i].id)
                &&& h[act[i].id].len() == act[i].frame + 1
                &&& anchor(h[act[i].id][0]) == act[i].position
            } by {
                if i < act.len() - 1 {
                    assert(act[i] == s0.active@[i]);
                    assert(s0.history@.contains_key(s0.active@[i].id));
                }
            }
            assert forall|id: u64| #[trigger]
                h.contains_key(id) && h[id].len() != self.length + 1 implies self.tracks(id) by {
                if id == a.id {
                    assert(self.in_flight()[act.len() - 1].id == id);
                } else {
                    assert(s0.history@.contains_key(id));
                    let i = choose|i: int|
                        0 <= i < s0.in_flight().len() && #[trigger] s0.in_flight()[i].id == id;
                    assert(self.in_flight()[i].id == id);
                }
            }
        }
        Some(n)
    }

    /// Advances, at time `now`, every animation in flight that is due by
    /// exactly one frame, whatever time has passed; announces each new frame
    /// below the length, and clears and drops each animation that reached it.
    /// Each animation is advanced on its own timing, independent of the others.
    pub fn step(&mut self, now: u64) -> (notes: Vec<Notification>)
        requires
            old(self).wf(),
        ensures
            final(self).wf(),
            final(self).period_spec() == old(self).period_spec(),
            final(self).length_spec() == old(self).length_spec(),
            final(self).newest() == old(self).newest(),
            notes@ == notes_for(old(self).in_flight(), now, old(self).period_spec(), old(self).length_spec()),
            final(self).in_flight() == survivors(
                old(self).in_flight(),
                now,
                old(self).period_spec(),
                old(self).length_spec(),
            ),
            final(self).history().dom() == old(self).history().dom(),
            forall|i: int|
                0 <= i < old(self).in_flight().len() ==> #[trigger] final(self).history()[old(self).in_flight()[i].id]
                    == old(self).history()[old(self).in_flight()[i].id] + note_for(
                    old(self).in_flight()[i],
                    now,
                    old(self).period_spec(),
                    old(self).length_spec(),
                ),
            forall|id: u64|
                #[trigger] old(self).history().contains_key(id) && !old(self).tracks(id)
                    ==> final(self).history()[id] == old(self).history()[id],
            old(self).in_flight().len() == 0 ==> notes@.len() == 0 && final(self).in_flight().len() == 0,
    {
        let ghost s0 = *self;
        let ghost act = self.active@;
        let ghost old_h = self.history@;
        let period = self.period;
        let length = self.length;
        let mut notes: Vec<Notification> = Vec::new();
        let mut kept: Vec<Animation> = Vec::new();
        let ghost mut origin: Seq<int> = seq![];
        let mut i: usize = 0;
        while i < self.active.len()
            invariant
                s0.wf(),
                act == s0.active@,
                old_h == s0.history@,
                self.active@ == act,
                self.period == period && period == s0.period,
                self.length == length && length == s0.length,
                self.last_admitted == s0.last_admitted,
                0 <= i <= act.len(),
                notes@ == notes_for(act.take(i as int), now, period, length),
                kept@ == survivors(act.take(i as int), now, period, length),
                origin.len() == kept@.len(),
                forall|k: int|
                    0 <= k < kept@.len() ==> 0 <= #[trigger] origin[k] < i && kept@[k] == advance(
                        act[origin[k]],
                        now,
                        period,
                    ) && kept@[k].frame < length,
                forall|k1: int, k2: int|
                    0 <= k1 < k2 < kept@.len() ==> origin[k1] < origin[k2],
                forall|j: int|
                    0 <= j < i && #[trigger] advance(act[j], now, period).frame < length ==> exists|
                        k: int,
                    | 0 <= k < kept@.len() && origin[k] == j,
                self.history@.dom() == old_h.dom(),
                forall|j: int|
                    0 <= j < i ==> #[trigger] self.history@[act[j].id] == old_h[act[j].id]
                        + note_for(act[j], now, period, length),
                forall|j: int|
                    i <= j < act.len() ==> #[trigger] self.history@[act[j].id] == old_h[act[j].id],
                forall|id: u64|
                    #[trigger] old_h.contains_key(id) && !s0.tracks(id) ==> self.history@[id]
                        == old_h[id],
            decreases act.len() - i,
        {
            let a = self.active[i];
            let ghost origin_before = origin;
            proof {
                assert(act.take(i + 1).drop_last() =~= act.take(i as int));
                assert(act.take(i + 1).last() == act[i as int]);
                assert(old_h.contains_key(a.id));
            }
            let elapsed: u64 = if now > a.last_update { now - a.last_update } else { 0 };
            let mut b = a;
            if elapsed > period {
                b.frame = a.frame + 1;
                b.last_update = now;
                let n = if b.frame < length {
                    Notification::Animate { id: a.id, frame: b.frame, position: a.position }
                } else {
                    Notification::Clear { id: a.id }
                };
                notes.push(n);
                self.history = Ghost(self.history@.insert(a.id, self.history@[a.id].push(n)));
                proof {
                    assert(note_for(a, now, period, length) == seq![n]);
                    assert(old_h[a.id] + seq![n] == old_h[a.id].push(n));
                }
            } else {
                proof {
                    assert(note_for(a, now, period, length) =~= Seq::<Notification>::empty());
                    assert(notes@ + note_for(a, now, period, length) =~= notes@);
                    assert(old_h[a.id] + note_for(a, now, period, length) =~= old_h[a.id]);
                }
            }
            proof {
                assert(b == advance(a, now, period));
            }
            if b.frame < length {
                kept.push(b);
                proof {
                    origin = origin.push(i as int);
                }
            }
            proof {
                let h = self.history@;
                assert forall|j: int| 0 <= j <= i implies #[trigger] h[act[j].id] == old_h[act[j].id]
                    + note_for(act[j], now, period, length) by {
                    if j < i {
                        assert(act[j].id < act[i as int].id);
                    }
                }
                assert forall|j: int| i + 1 <= j < act.len() implies #[trigger] h[act[j].id]
                    == old_h[act[j].id] by {
                    assert(act[i as int].id < act[j].id);
                }
                assert forall|id: u64| #[trigger]
                    old_h.contains_key(id) && !s0.tracks(id) implies h[id] == old_h[id] by {
                    if id == a.id {
                        assert(s0.in_flight()[i as int].id == id);
                    }
                }
                assert forall|j: int|
                    0 <= j < i + 1 && #[trigger] advance(act[j], now, period).frame
                        < length implies exists|k: int| 0 <= k < kept@.len() && origin[k] == j by {
                    if j == i {
                        assert(origin[kept@.len() - 1] == j);
                    } else {
                        let k = choose|k: int| 0 <= k < origin_before.len() && origin_before[k] == j;
                        assert(origin[k] == j);
                    }
                }
            }
            i = i + 1;
        }
        proof {
            assert(act.take(act.len() as int) =~= act);
        }
        self.active = kept;
        proof {
            let k = self.active@;
            let h = self.history@;
            assert forall|i: int, j: int| 0 <= i < j < k.len() implies k[i].id < k[j].id by {
                assert(origin[i] < origin[j]);
            }
            assert forall|i: int| 0 <= i < k.len() implies {
                &&& h.contains_key(#[trigger] k[i].id)
                &&& h[k[i].id].len() == k[i].frame + 1
                &&& anchor(h[k[i].id][0]) == k[i].position
            } by {
                let j = origin[i];
                assert(h[act[j].id] == old_h[act[j].id] + note_for(act[j], now, period, length));
                assert(old_h.contains_key(act[j].id));
                lemma_extend(old_h[act[j].id], act[j], now, period, length);
            }
            assert forall|id: u64| #[trigger] h.contains_key(id) implies 1 <= id
                <= self.last_admitted && follows_lifecycle(h[id], id, self.length) by {
                assert(old_h.contains_key(id));
                if s0.tracks(id) {
                    let j = choose|j: int| 0 <= j < s0.in_flight().len() && #[trigger] s0.in_flight()[j].id == id;
                    assert(h[act[j].id] == old_h[act[j].id] + note_for(act[j], now, period, length));
                    lemma_extend(old_h[act[j].id], act[j], now, period, length);
                }
            }
            assert forall|id: u64| #[trigger]
                h.contains_key(id) && h[id].len() != self.length + 1 implies self.tracks(id) by {
                assert(old_h.contains_key(id));
                if s0.tracks(id) {
                    let j = choose|j: int| 0 <= j < s0.in_flight().len() && #[trigger] s0.in_flight()[j].id == id;
                    assert(h[act[j].id] == old_h[act[j].id] + note_for(act[j], now, period, length));
                    lemma_extend(old_h[act[j].id], act[j], now, period, length);
                    assert(advance(act[j], now, period).frame < length);
                    let kk = choose|kk: int| 0 <= kk < k.len() && origin[kk] == j;
                    assert(self.in_flight()[kk].id == id);
                }
            }
            assert(1 <= self.length);
            assert forall|i: int| 0 <= i < k.len() implies #[trigger] k[i].frame < self.length by {
                assert(origin[i] < act.len());
            }
        }
        notes
    }
    /// Takes in what the admission queue holds, without blocking: at most as
    /// many requests as the queue can hold in one pass, stopping when it is
    /// empty. Each request is handled as `accept` says; the notifications
    /// returned announce the first frame of each animation taken in.
    pub fn drain(&mut self, queue: &ArrayQueue<Admission>) -> (notes: Vec<Notification>)
        requires
            old(self).wf(),
        ensures
            final(self).wf(),
            final(self).period_spec() == old(self).period_spec(),
            final(self).length_spec() == old(self).length_spec(),
            final(self).newest() >= old(self).newest(),
            final(self).in_flight().len() == old(self).in_flight().len() + notes@.len(),
            final(self).in_flight().subrange(0, old(self).in_flight().len() as int) == old(
                self,
            ).in_flight(),
            forall|k: int|
                0 <= k < notes@.len() ==> {
                    let a = #[trigger] final(self).in_flight()[old(self).in_flight().len() + k];
                    &&& a.frame == 0
                    &&& old(self).newest() < a.id
                    &&& notes@[k] == (Notification::Animate { id: a.id, frame: 0, position: a.position })
                    &&& final(self).history()[a.id] == seq![notes@[k]]
                },
            forall|id: u64| #[trigger]
                old(self).history().contains_key(id) ==> final(self).history().contains_key(id)
                    && final(self).history()[id] == old(self).history()[id],
    {
        let ghost s0 = *self;
        let cap = array_queue_capacity(queue);
        let mut notes: Vec<Notification> = Vec::new();
        let mut i: usize = 0;
        let mut open = true;
        while open && i < cap
            invariant
                self.wf(),
                self.period == s0.period,
                self.length == s0.length,
                self.last_admitted >= s0.last_admitted,
                self.active@.len() == s0.active@.len() + notes@.len(),
                self.active@.subrange(0, s0.active@.len() as int) == s0.active@,
                forall|k: int|
                    0 <= k < notes@.len() ==> {
                        let a = #[trigger] self.active@[s0.active@.len() + k];
                        &&& a.frame == 0
                        &&& s0.last_admitted < a.id
                        &&& notes@[k] == (Notification::Animate { id: a.id, frame: 0, position: a.position })
                        &&& self.history@[a.id] == seq![notes@[k]]
                    },
                forall|id: u64| #[trigger]
                    s0.history@.contains_key(id) ==> self.history@.contains_key(id)
                        && self.history@[id] == s0.history@[id],
            decreases (cap - i) as int + if open { 1int } else { 0int },
        {
            match array_queue_pop(queue) {
                None => {
                    open = false;
                },
                Some(a) => {
                    let ghost before = *self;
                    if let Some(n) = self.accept(a) {
                        notes.push(n);
                        proof {
                            assert(self.active@.subrange(0, s0.active@.len() as int)
                                =~= before.active@.subrange(0, s0.active@.len() as int));
                            assert forall|k: int| 0 <= k < notes@.len() implies {
                                let b = #[trigger] self.active@[s0.active@.len() + k];
                                &&& b.frame == 0
                                &&& s0.last_admitted < b.id
                                &&& notes@[k] == (Notification::Animate { id: b.id, frame: 0, position: b.position })
                                &&& self.history@[b.id] == seq![notes@[k]]
                            } by {
                                if k < notes@.len() - 1 {
                                    let b = before.active@[s0.active@.len() + k];
                                    assert(self.active@[s0.active@.len() + k] == b);
                                    assert(before.history@.contains_key(b.id));
                                }
                            }
                        }
                    }
                    i = i + 1;
                },
            }
        }
        notes
    }

    /// Whether the scheduler's thread may sleep until woken: nothing in
    /// flight and, when looked at, nothing waiting in the queue.
    pub fn should_park(&self, queue: &ArrayQueue<Admission>) -> (r: bool)
        ensures
            r ==> self.in_flight().len() == 0,
    {
        self.active.len() == 0 && array_queue_is_empty(queue)
    }

    /// What has been emitted about each id obeys the lifecycle: `Animate`
    /// for frames 0, 1, 2, ... in order, never above `length - 1`, all at the
    /// position the animation was admitted at, then one `Clear`, last. The
    /// `Clear` has been emitted exactly when the id is no longer in flight;
    /// from then on `step` and `accept` add nothing for it.
    pub proof fn lemma_notifications_follow_lifecycle(&self, id: u64)
        requires
            self.wf(),
            self.history().contains_key(id),
        ensures
            follows_lifecycle(self.history()[id], id, self.length_spec()),
            (self.history()[id].len() == self.length_spec() + 1) == !self.tracks(id),
            self.history()[id].len() == self.length_spec() + 1 ==> self.history()[id].last()
                == (Notification::Clear { id }),
    {
        if self.tracks(id) {
            let i = choose|i: int| 0 <= i < self.in_flight().len() && #[trigger] self.in_flight()[i].id == id;
            assert(self.active@[i].frame < self.length);
        }
        let h = self.history@[id];
        if h.len() == self.length + 1 {
            assert(h[h.len() - 1] == lifecycle_note(id, anchor(h[0]), self.length, h.len() - 1));
        }
    }
}

/// Animations advance independently: one step over two groups of animations
/// emits what it emits for the first group followed by what it emits for the
/// second, and keeps what it keeps of each, whatever the other group holds.
pub proof fn lemma_independent_phasing(
    s1: Seq<Animation>,
    s2: Seq<Animation>,
    now: u64,
    period: u64,
    length: u8,
)
    ensures
        notes_for(s1 + s2, now, period, length) == notes_for(s1, now, period, length) + notes_for(
            s2,
            now,
            period,
            length,
        ),
        survivors(s1 + s2, now, period, length) == survivors(s1, now, period, length) + survivors(
            s2,
            now,
            period,
            length,
        ),
    decreases s2.len(),
{
    if s2.len() == 0 {
        assert(s1 + s2 =~= s1);
        assert(notes_for(s1, now, period, length) + notes_for(s2, now, period, length) =~= notes_for(
            s1,
            now,
            period,
            length,
        ));
        assert(survivors(s1, now, period, length) + survivors(s2, now, period, length) =~= survivors(
            s1,
            now,
            period,
            length,
        ));
    } else {
        lemma_independent_phasing(s1, s2.drop_last(), now, period, length);
        assert((s1 + s2).drop_last() =~= s1 + s2.drop_last());
        assert((s1 + s2).last() == s2.last());
        let n1 = notes_for(s1, now, period, length);
        let n2 = notes_for(s2.drop_last(), now, period, length);
        let x = note_for(s2.last(), now, period, length);
        assert(n1 + n2 + x =~= n1 + (n2 + x));
        let v1 = survivors(s1, now, period, length);
        let v2 = survivors(s2.drop_last(), now, period, length);
        let b = advance(s2.last(), now, period);
        assert((v1 + v2).push(b) =~= v1 + v2.push(b));
    }
}

} // verus!
