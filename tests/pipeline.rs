use screen_pinger::animation::{
    Admission, Animation, Notification, Position, DEFAULT_CAPACITY, DEFAULT_LENGTH,
    DEFAULT_PERIOD_NANOS,
};
use screen_pinger::overlay::{Overlay, Shown};
use screen_pinger::registry::{capacity, is_empty, new_queue};
use screen_pinger::scheduler::Scheduler;
use screen_pinger::trigger::{InputEvent, TriggerSource};

const MS: u64 = 1_000_000;

fn pos(x: i32, y: i32) -> Position {
    Position { x, y }
}

/// Runs the scheduler from `from` to `to` (nanoseconds) in ticks of `tick`,
/// draining the queue first on each tick, and returns every notification with
/// the time it was emitted.
fn run(
    sched: &mut Scheduler,
    queue: &crossbeam::queue::ArrayQueue<Admission>,
    from: u64,
    to: u64,
    tick: u64,
) -> Vec<(u64, Notification)> {
    let mut out = Vec::new();
    let mut t = from;
    while t <= to {
        for n in sched.drain(queue) {
            out.push((t, n));
        }
        for n in sched.step(t) {
            out.push((t, n));
        }
        t += tick;
    }
    out
}

fn events_for(events: &[(u64, Notification)], id: u64) -> Vec<(u64, Notification)> {
    events.iter().copied().filter(|(_, n)| n.id() == id).collect()
}

#[test]
fn latch_fires_only_while_armed() {
    let mut t = TriggerSource::new();
    assert!(!t.armed());
    assert!(!t.observe(InputEvent::ActionPressed));
    assert!(!t.observe(InputEvent::ArmPressed));
    assert!(t.armed());
    assert!(!t.observe(InputEvent::Other));
    assert!(t.observe(InputEvent::ActionPressed));
    assert!(t.observe(InputEvent::ActionPressed));
    assert!(!t.observe(InputEvent::ArmReleased));
    assert!(!t.observe(InputEvent::ActionPressed));
    assert_eq!(t.last_id(), 0);
}

#[test]
fn admissions_get_increasing_ids() {
    let q = new_queue(DEFAULT_CAPACITY);
    let mut t = TriggerSource::new();
    assert_eq!(t.try_admit(&q, pos(1, 2), 5), Some(1));
    assert_eq!(t.try_admit(&q, pos(3, 4), 6), Some(2));
    assert_eq!(q.pop(), Some(Admission { id: 1, position: pos(1, 2), at: 5 }));
    assert_eq!(q.pop(), Some(Admission { id: 2, position: pos(3, 4), at: 6 }));
    assert!(q.pop().is_none());
}

#[test]
fn next_admission_builds_request() {
    let mut t = TriggerSource::new();
    assert_eq!(
        t.next_admission(pos(-5, 7), 42),
        Some(Admission { id: 1, position: pos(-5, 7), at: 42 })
    );
    assert_eq!(t.last_id(), 1);
}

#[test]
fn queue_reports_its_capacity() {
    let q = new_queue(7);
    assert_eq!(capacity(&q), 7);
    assert!(is_empty(&q));
}

#[test]
fn full_queue_drops_attempts() {
    let q = new_queue(DEFAULT_CAPACITY);
    let mut t = TriggerSource::new();
    let mut admitted = Vec::new();
    let mut dropped = 0;
    for i in 0..15 {
        match t.try_admit(&q, pos(i, i), 0) {
            Some(id) => admitted.push(id),
            None => dropped += 1,
        }
    }
    assert_eq!(admitted, (1..=10).collect::<Vec<u64>>());
    assert_eq!(dropped, 5);
    assert_eq!(t.last_id(), 15);
    let mut s = Scheduler::new(DEFAULT_PERIOD_NANOS, DEFAULT_LENGTH);
    let notes = s.drain(&q);
    let ids: Vec<u64> = notes.iter().map(|n| n.id()).collect();
    assert_eq!(ids, (1..=10).collect::<Vec<u64>>());
    assert!(is_empty(&q));
    // After the drain the queue has room again; the next id continues.
    assert_eq!(t.try_admit(&q, pos(0, 0), 0), Some(16));
}

#[test]
fn capacity_one_keeps_one_in_flight() {
    let q = new_queue(1);
    let mut t = TriggerSource::new();
    assert_eq!(t.try_admit(&q, pos(0, 0), 0), Some(1));
    assert_eq!(t.try_admit(&q, pos(0, 0), 0), None);
}

#[test]
fn accept_announces_frame_zero() {
    let mut s = Scheduler::new(DEFAULT_PERIOD_NANOS, DEFAULT_LENGTH);
    let n = s.accept(Admission { id: 3, position: pos(10, 20), at: 100 });
    assert_eq!(n, Some(Notification::Animate { id: 3, frame: 0, position: pos(10, 20) }));
    assert_eq!(
        s.animations().clone(),
        vec![Animation { id: 3, frame: 0, position: pos(10, 20), last_update: 100 }]
    );
    // A stale or repeated id is ignored.
    assert_eq!(s.accept(Admission { id: 3, position: pos(0, 0), at: 0 }), None);
    assert_eq!(s.accept(Admission { id: 2, position: pos(0, 0), at: 0 }), None);
    assert_eq!(s.animations().len(), 1);
}

#[test]
fn step_advances_only_after_a_full_period() {
    let mut s = Scheduler::new(100, 3);
    s.accept(Admission { id: 1, position: pos(1, 1), at: 1000 });
    assert!(s.step(1100).is_empty());
    assert_eq!(s.animations()[0].frame, 0);
    assert_eq!(s.step(1101), vec![Notification::Animate { id: 1, frame: 1, position: pos(1, 1) }]);
    assert_eq!(s.animations()[0].last_update, 1101);
    // A long stall still advances by one frame only.
    assert_eq!(s.step(9000), vec![Notification::Animate { id: 1, frame: 2, position: pos(1, 1) }]);
    assert_eq!(s.step(9101), vec![Notification::Clear { id: 1 }]);
    assert!(s.is_idle());
    assert!(s.step(99999).is_empty());
}

#[test]
fn clock_before_last_update_is_not_due() {
    let mut s = Scheduler::new(0, 2);
    s.accept(Admission { id: 1, position: pos(0, 0), at: 500 });
    assert!(s.step(400).is_empty());
    assert_eq!(s.step(501).len(), 1);
}

#[test]
fn length_one_clears_on_first_advance() {
    let mut s = Scheduler::new(10, 1);
    assert_eq!(s.length(), 1);
    assert_eq!(s.period(), 10);
    s.accept(Admission { id: 9, position: pos(0, 0), at: 0 });
    assert_eq!(s.step(11), vec![Notification::Clear { id: 9 }]);
    assert!(s.is_idle());
}

#[test]
fn every_admission_completes_in_order() {
    let q = new_queue(DEFAULT_CAPACITY);
    let mut t = TriggerSource::new();
    let mut s = Scheduler::new(DEFAULT_PERIOD_NANOS, DEFAULT_LENGTH);
    for i in 0..4 {
        assert!(t.try_admit(&q, pos(i, -i), 0).is_some());
    }
    let events = run(&mut s, &q, 0, 2000 * MS, MS);
    for id in 1..=4u64 {
        let mine = events_for(&events, id);
        assert_eq!(mine.len(), 61);
        for (k, (_, n)) in mine.iter().take(60).enumerate() {
            let i = id as i32 - 1;
            assert_eq!(*n, Notification::Animate { id, frame: k as u8, position: pos(i, -i) });
        }
        assert_eq!(mine[60].1, Notification::Clear { id });
    }
    assert!(s.is_idle());
}

#[test]
fn idle_scheduler_does_no_work() {
    let q = new_queue(DEFAULT_CAPACITY);
    let mut s = Scheduler::new(DEFAULT_PERIOD_NANOS, DEFAULT_LENGTH);
    assert!(s.should_park(&q));
    let events = run(&mut s, &q, 0, 500 * MS, MS);
    assert!(events.is_empty());
    assert!(s.is_idle());
    let mut t = TriggerSource::new();
    t.try_admit(&q, pos(0, 0), 0);
    assert!(!s.should_park(&q));
    s.drain(&q);
    assert!(!s.should_park(&q));
}

#[test]
fn animations_are_independently_phased() {
    let q = new_queue(DEFAULT_CAPACITY);
    let mut t = TriggerSource::new();
    let mut s = Scheduler::new(DEFAULT_PERIOD_NANOS, DEFAULT_LENGTH);
    t.try_admit(&q, pos(0, 0), 0);
    let mut events = run(&mut s, &q, 0, 500 * MS - 1, MS / 10);
    t.try_admit(&q, pos(5, 5), 500 * MS);
    events.extend(run(&mut s, &q, 500 * MS, 3000 * MS, MS / 10));
    for (id, start) in [(1u64, 0u64), (2, 500 * MS)] {
        let mine = events_for(&events, id);
        assert_eq!(mine.len(), 61);
        let took = mine[60].0 - start;
        assert!(took >= 1000 * MS && took <= 1010 * MS, "took {took}");
    }
}

#[test]
fn concrete_two_animation_scenario() {
    let q = new_queue(10);
    let mut t = TriggerSource::new();
    let mut s = Scheduler::new(DEFAULT_PERIOD_NANOS, 60);
    let tick = MS / 100;
    assert!(t.observe(InputEvent::ArmPressed) == false);
    assert!(t.observe(InputEvent::ActionPressed));
    assert_eq!(t.try_admit(&q, pos(100, 100), 0), Some(1));
    let mut events = run(&mut s, &q, 0, 5 * MS - 1, tick);
    assert!(t.observe(InputEvent::ActionPressed));
    assert_eq!(t.try_admit(&q, pos(200, 200), 5 * MS), Some(2));
    events.extend(run(&mut s, &q, 5 * MS, 2000 * MS, tick));

    let one = events_for(&events, 1);
    assert_eq!(one[0], (0, Notification::Animate { id: 1, frame: 0, position: pos(100, 100) }));
    assert_eq!(one[59].1, Notification::Animate { id: 1, frame: 59, position: pos(100, 100) });
    assert!(one[59].0 >= 983 * MS && one[59].0 <= 984 * MS, "at {}", one[59].0);
    assert_eq!(one[60].1, Notification::Clear { id: 1 });
    assert_eq!(one.len(), 61);

    let two = events_for(&events, 2);
    assert_eq!(two[0], (5 * MS, Notification::Animate { id: 2, frame: 0, position: pos(200, 200) }));
    assert_eq!(two[59].1, Notification::Animate { id: 2, frame: 59, position: pos(200, 200) });
    assert!(two[59].0 >= 988 * MS && two[59].0 <= 989 * MS, "at {}", two[59].0);
    assert_eq!(two[60].1, Notification::Clear { id: 2 });
    assert_eq!(two.len(), 61);
    for w in two.windows(2).take(59) {
        assert!(w[0].0 < w[1].0);
    }
}

#[test]
fn overlay_applies_notifications() {
    let mut o = Overlay::new();
    assert_eq!(o.len(), 0);
    assert!(o.apply(Notification::Animate { id: 1, frame: 0, position: pos(3, 4) }));
    assert_eq!(o.get(1), Some(Shown { frame: 0, position: pos(3, 4) }));
    assert!(!o.apply(Notification::Animate { id: 1, frame: 0, position: pos(3, 4) }));
    assert!(o.apply(Notification::Animate { id: 1, frame: 1, position: pos(3, 4) }));
    assert_eq!(o.get(1), Some(Shown { frame: 1, position: pos(3, 4) }));
    assert!(o.apply(Notification::Animate { id: 2, frame: 0, position: pos(0, 0) }));
    assert_eq!(o.entries().len(), 2);
    assert!(o.apply(Notification::Clear { id: 1 }));
    assert_eq!(o.get(1), None);
    assert!(!o.apply(Notification::Clear { id: 1 }));
    assert!(!o.apply(Notification::Clear { id: 77 }));
    assert_eq!(o.len(), 1);
}

#[test]
fn overlay_follows_scheduler_to_empty() {
    let q = new_queue(DEFAULT_CAPACITY);
    let mut t = TriggerSource::new();
    let mut s = Scheduler::new(DEFAULT_PERIOD_NANOS, DEFAULT_LENGTH);
    let mut o = Overlay::new();
    t.try_admit(&q, pos(1, 1), 0);
    t.try_admit(&q, pos(2, 2), 0);
    let events = run(&mut s, &q, 0, 2000 * MS, MS);
    let mut saw_both = false;
    for (_, n) in events {
        o.apply(n);
        if o.len() == 2 {
            saw_both = true;
        }
    }
    assert!(saw_both);
    assert_eq!(o.len(), 0);
}

#[test]
fn notification_id() {
    assert_eq!(Notification::Clear { id: 4 }.id(), 4);
    assert_eq!(Notification::Animate { id: 5, frame: 1, position: pos(0, 0) }.id(), 5);
}
