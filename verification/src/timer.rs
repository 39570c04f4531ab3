//! Tick-counted timer queue: events ordered by due time against a
//! free-running tick counter. The thread pool uses it to wake timed sleepers;
//! the counter itself is advanced by the timer interrupt's acknowledgment
//! path.

use vstd::prelude::*;

verus! {

/// One pending event: `data` becomes due once the counter reaches `time`.
#[derive(Clone, Copy, PartialEq, Eq, Structural, Debug)]
pub struct TimerEvent {
    pub time: usize,
    pub data: usize,
}

/// Events sorted by due time, soonest first.
pub open spec fn events_sorted(s: Seq<TimerEvent>) -> bool {
    forall|i: int, j: int| 0 <= i < j < s.len() ==> s[i].time <= s[j].time
}

/// Where a new event with due time `time` is filed: immediately before the
/// first pending event that is due no earlier.
pub open spec fn insertion_point(s: Seq<TimerEvent>, time: usize) -> int
    decreases s.len(),
{
    if s.len() == 0 {
        0
    } else if s[0].time >= time {
        0
    } else {
        1 + insertion_point(s.drop_first(), time)
    }
}

/// The insertion point is the boundary between the strictly-earlier prefix
/// and the rest of the queue.
pub proof fn lemma_insertion_point(s: Seq<TimerEvent>, time: usize)
    ensures
        0 <= insertion_point(s, time) <= s.len(),
        forall|j: int| 0 <= j < insertion_point(s, time) ==> s[j].time < time,
        insertion_point(s, time) < s.len() ==> s[insertion_point(s, time)].time >= time,
    decreases s.len(),
{
    if s.len() == 0 {
    } else if s[0].time >= time {
    } else {
        lemma_insertion_point(s.drop_first(), time);
        assert forall|j: int| 0 <= j < insertion_point(s, time) implies s[j].time < time by {
            if j > 0 {
                assert(s.drop_first()[j - 1] == s[j]);
            }
        }
    }
}

/// Index of the first pending event carrying `data`, or the queue length if
/// none does.
pub open spec fn find_data(s: Seq<TimerEvent>, data: usize) -> int
    decreases s.len(),
{
    if s.len() == 0 {
        0
    } else if s[0].data == data {
        0
    } else {
        1 + find_data(s.drop_first(), data)
    }
}

/// `find_data` locates the first occurrence of `data`, and runs off the end
/// exactly when no pending event carries it.
pub proof fn lemma_find_data(s: Seq<TimerEvent>, data: usize)
    ensures
        0 <= find_data(s, data) <= s.len(),
        forall|j: int| 0 <= j < find_data(s, data) ==> s[j].data != data,
        find_data(s, data) < s.len() ==> s[find_data(s, data)].data == data,
    decreases s.len(),
{
    if s.len() == 0 {
    } else if s[0].data == data {
    } else {
        lemma_find_data(s.drop_first(), data);
        assert forall|j: int| 0 <= j < find_data(s, data) implies s[j].data != data by {
            if j > 0 {
                assert(s.drop_first()[j - 1] == s[j]);
            }
        }
    }
}

/// The timer: a tick counter and the queue of pending events.
pub struct Timer {
    pub tick: usize,
    pub events: Vec<TimerEvent>,
}

impl Timer {
    /// The queue is kept sorted by due time.
    pub open spec fn wf(&self) -> bool {
        events_sorted(self.events@)
    }

    /// No two pending events carry the same payload: each sleeper has at
    /// most one wake condition on file.
    pub open spec fn events_unique(&self) -> bool {
        forall|i: int, j: int|
            0 <= i < j < self.events@.len() ==> self.events@[i].data != self.events@[j].data
    }

    /// Every pending event is due strictly in the future; none has silently
    /// passed.
    pub open spec fn events_future(&self) -> bool {
        forall|j: int| 0 <= j < self.events@.len() ==> self.events@[j].time > self.tick
    }

    /// A fresh timer: counter at zero, nothing pending.
    pub fn new() -> (r: Timer)
        ensures
            r.wf(),
            r.tick == 0,
            r.events@.len() == 0,
    {
        Timer { tick: 0, events: Vec::new() }
    }

    /// Advance the free-running counter by one.
    pub fn tick(&mut self)
        requires
            old(self).tick < usize::MAX,
        ensures
            final(self).tick == old(self).tick + 1,
            final(self).events == old(self).events,
            old(self).wf() ==> final(self).wf(),
    {
        self.tick = self.tick + 1;
    }

    /// Take the next event that is due exactly now, if any: the queue's head,
    /// when its time equals the current tick.
    pub fn pop(&mut self) -> (r: Option<usize>)
        requires
            old(self).wf(),
        ensures
            final(self).wf(),
            final(self).tick == old(self).tick,
            r is Some <==> old(self).events@.len() > 0 && old(self).events@[0].time == old(self).tick,
            r is Some ==> r == Some(old(self).events@[0].data) && final(self).events@ == old(self).events@.drop_first(),
            r is None ==> final(self).events == old(self).events,
            old(self).events_unique() ==> final(self).events_unique(),
            old(self).events_future() ==> final(self).events_future(),
    {
        if self.events.len() == 0 {
            return None;
        }
        if self.events[0].time != self.tick {
            return None;
        }
        let ev = self.events.remove(0);
        proof {
            assert(self.events@ =~= old(self).events@.drop_first());
            if old(self).events_unique() {
                assert forall|i: int, j: int|
                    0 <= i < j < self.events@.len() implies self.events@[i].data
                    != self.events@[j].data by {
                    assert(self.events@[i] == old(self).events@[i + 1]);
                    assert(self.events@[j] == old(self).events@[j + 1]);
                }
            }
            if old(self).events_future() {
                assert forall|j: int|
                    0 <= j < self.events@.len() implies self.events@[j].time > self.tick by {
                    assert(self.events@[j] == old(self).events@[j + 1]);
                }
            }
        }
        Some(ev.data)
    }

    /// File an event due `time_after` ticks from now, keeping the queue
    /// sorted; among events due at the same instant the new one goes first.
    pub fn start(&mut self, time_after: usize, data: usize)
        requires
            old(self).wf(),
            old(self).tick + time_after <= usize::MAX,
        ensures
            final(self).wf(),
            final(self).tick == old(self).tick,
            final(self).events@ == old(self).events@.insert(
                insertion_point(old(self).events@, (old(self).tick + time_after) as usize),
                TimerEvent { time: (old(self).tick + time_after) as usize, data },
            ),
            (old(self).events_unique() && (forall|j: int|
                0 <= j < old(self).events@.len() ==> old(self).events@[j].data != data)) ==> final(self).events_unique(),
            (old(self).events_future() && time_after > 0) ==> final(self).events_future(),
    {
        let time: usize = self.tick + time_after;
        let ghost s0 = self.events@;
        let mut i: usize = 0;
        while i < self.events.len() && self.events[i].time < time
            invariant
                0 <= i <= self.events@.len(),
                self.events@ == s0,
                forall|j: int| 0 <= j < i ==> s0[j].time < time,
            decreases self.events@.len() - i,
        {
            i = i + 1;
        }
        proof {
            lemma_insertion_point(s0, time);
            assert(i == insertion_point(s0, time)) by {
                if i < insertion_point(s0, time) {
                    assert(s0[i as int].time < time);
                } else if i > insertion_point(s0, time) {
                    assert(s0[insertion_point(s0, time)].time < time);
                }
            }
        }
        self.events.insert(i, TimerEvent { time, data });
        proof {
            let s1 = self.events@;
            let p = insertion_point(s0, time);
            assert forall|a: int, b: int| 0 <= a < b < s1.len() implies s1[a].time <= s1[b].time by {
                if a < p && b > p {
                    assert(s1[a] == s0[a] && s1[b] == s0[b - 1]);
                    if b - 1 == p {
                        assert(s0[a].time < time);
                    }
                } else if a == p {
                    assert(s1[b] == s0[b - 1] && s0[b - 1].time >= time);
                } else if b == p {
                    assert(s1[a] == s0[a] && s0[a].time < time);
                }
            }
            if old(self).events_unique() && (forall|j: int|
                0 <= j < s0.len() ==> s0[j].data != data) {
                assert forall|a: int, b: int| 0 <= a < b < s1.len() implies s1[a].data
                    != s1[b].data by {
                    if a != p && b != p {
                        let a0: int = if a < p { a } else { a - 1 };
                        let b0: int = if b < p { b } else { b - 1 };
                        assert(s1[a] == s0[a0] && s1[b] == s0[b0]);
                    } else if a == p {
                        assert(s1[b] == s0[b - 1]);
                    } else {
                        assert(s1[a] == s0[a]);
                    }
                }
            }
            if old(self).events_future() && time_after > 0 {
                assert forall|j: int| 0 <= j < s1.len() implies s1[j].time > self.tick by {
                    if j != p {
                        let j0: int = if j < p { j } else { j - 1 };
                        assert(s1[j] == s0[j0]);
                    }
                }
            }
        }
    }

    /// Cancel the first pending event carrying `data`, if one exists.
    pub fn stop(&mut self, data: usize)
        requires
            old(self).wf(),
        ensures
            final(self).wf(),
            final(self).tick == old(self).tick,
            final(self).events@ == if find_data(old(self).events@, data) < old(self).events@.len() {
                old(self).events@.remove(find_data(old(self).events@, data))
            } else {
                old(self).events@
            },
            forall|j: int|
                0 <= j < final(self).events@.len() ==> old(self).events@.contains(
                    #[trigger] final(self).events@[j],
                ),
            old(self).events_unique() ==> final(self).events_unique(),
            old(self).events_future() ==> final(self).events_future(),
            old(self).events_unique() ==> forall|j: int|
                0 <= j < final(self).events@.len() ==> (#[trigger] final(self).events@[j]).data
                    != data,
    {
        let ghost s0 = self.events@;
        proof {
            lemma_find_data(s0, data);
        }
        let mut i: usize = 0;
        while i < self.events.len() && self.events[i].data != data
            invariant
                0 <= i <= self.events@.len(),
                self.events@ == s0,
                forall|j: int| 0 <= j < i ==> s0[j].data != data,
            decreases self.events@.len() - i,
        {
            i = i + 1;
        }
        proof {
            assert(i == find_data(s0, data)) by {
                if i < find_data(s0, data) {
                    assert(s0[i as int].data == data);
                } else if i > find_data(s0, data) {
                    assert(s0[find_data(s0, data)].data != data);
                }
            }
        }
        if i < self.events.len() {
            self.events.remove(i);
            proof {
                let s1 = self.events@;
                assert forall|a: int, b: int| 0 <= a < b < s1.len() implies s1[a].time
                    <= s1[b].time by {
                    if a < i && b >= i {
                        assert(s1[a] == s0[a] && s1[b] == s0[b + 1]);
                    } else if a >= i {
                        assert(s1[a] == s0[a + 1] && s1[b] == s0[b + 1]);
                    }
                }
                assert forall|j: int| 0 <= j < s1.len() implies s0.contains(#[trigger] s1[j]) by {
                    if j < i {
                        assert(s1[j] == s0[j]);
                    } else {
                        assert(s1[j] == s0[j + 1]);
                    }
                }
            }
        } else {
            proof {
                assert forall|j: int| 0 <= j < s0.len() implies s0.contains(#[trigger] s0[j]) by {}
            }
        }
    }
}

} // verus!
