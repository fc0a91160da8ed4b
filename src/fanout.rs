//! Fan-out of change events to subscribers, each with a bounded buffer.
//!
//! A subscriber that does not read never holds the publisher up: when its
//! buffer is full the oldest buffered event is dropped.

use vstd::prelude::*;
use crate::registry::{ChangeEvent, event_view};

verus! {

/// The value of a change event: added, name, URL text.
pub type EventView = (bool, Seq<char>, Seq<char>);

/// The latest `cap` items of `q` (all of them when there are fewer).
pub open spec fn window(q: Seq<EventView>, cap: nat) -> Seq<EventView> {
    if q.len() > cap {
        q.subrange(q.len() - cap, q.len() as int)
    } else {
        q
    }
}

/// A buffer after each of `es` was published to it, in order.
pub open spec fn publish_all(q: Seq<EventView>, es: Seq<EventView>, cap: nat) -> Seq<EventView>
    decreases es.len(),
{
    if es.len() == 0 {
        q
    } else {
        window(publish_all(q, es.drop_last(), cap).push(es.last()), cap)
    }
}

proof fn lemma_window_push(x: Seq<EventView>, l: EventView, cap: nat)
    requires
        cap > 0,
    ensures
        window(window(x, cap).push(l), cap) == window(x.push(l), cap),
{
    if x.len() > cap {
        assert(window(window(x, cap).push(l), cap) =~= window(x.push(l), cap));
    } else if x.len() == cap {
        assert(window(window(x, cap).push(l), cap) =~= window(x.push(l), cap));
    }
}

/// However many events are published, a buffer holds exactly the latest
/// `cap` of everything it was given (its earlier content, then the events).
pub proof fn lemma_buffer_keeps_latest(q: Seq<EventView>, es: Seq<EventView>, cap: nat)
    requires
        cap > 0,
        q.len() <= cap,
    ensures
        publish_all(q, es, cap) == window(q + es, cap),
        publish_all(q, es, cap).len() <= cap,
    decreases es.len(),
{
    if es.len() == 0 {
        assert(q + es =~= q);
    } else {
        lemma_buffer_keeps_latest(q, es.drop_last(), cap);
        lemma_window_push(q + es.drop_last(), es.last(), cap);
        assert((q + es.drop_last()).push(es.last()) =~= q + es);
    }
}

/// One subscriber: whether it is still connected, and its buffered events,
/// oldest first.
struct Subscriber {
    open: bool,
    pending: Vec<ChangeEvent>,
}

spec fn events_of(v: Seq<ChangeEvent>) -> Seq<EventView> {
    v.map_values(|e: ChangeEvent| event_view(e))
}

proof fn lemma_events_of(v: Seq<ChangeEvent>)
    ensures
        events_of(v).len() == v.len(),
        forall|i: int| 0 <= i < v.len() ==> #[trigger] events_of(v)[i] == event_view(v[i]),
{
}

proof fn lemma_events_push(v: Seq<ChangeEvent>, e: ChangeEvent)
    ensures
        events_of(v.push(e)) == events_of(v).push(event_view(e)),
{
    assert(events_of(v.push(e)) =~= events_of(v).push(event_view(e)));
}

spec fn subscriber_view(s: Subscriber) -> Option<Seq<EventView>> {
    if s.open {
        Some(events_of(s.pending@))
    } else {
        None
    }
}

/// Whether subscriber `id` is connected and has an event buffered.
pub open spec fn has_pending(subs: Seq<Option<Seq<EventView>>>, id: int) -> bool {
    &&& 0 <= id < subs.len()
    &&& subs[id] is Some
    &&& subs[id].unwrap().len() > 0
}

/// Subscribers are numbered in the order they subscribed; a closed one
/// keeps its number and receives nothing.
pub struct Broadcaster {
    capacity: usize,
    subs: Vec<Subscriber>,
}

impl View for Broadcaster {
    type V = Seq<Option<Seq<EventView>>>;

    closed spec fn view(&self) -> Seq<Option<Seq<EventView>>> {
        self.subs@.map_values(|s: Subscriber| subscriber_view(s))
    }
}

impl Broadcaster {
    proof fn lemma_view(&self)
        ensures
            self@.len() == self.subs@.len(),
            forall|i: int| 0 <= i < self.subs@.len() ==> #[trigger] self@[i] == subscriber_view(self.subs@[i]),
    {
    }

    pub closed spec fn cap(&self) -> nat {
        self.capacity as nat
    }

    /// The capacity is positive and no buffer exceeds it.
    pub open spec fn wf(&self) -> bool {
        &&& self.cap() > 0
        &&& forall|i: int| 0 <= i < self@.len() ==> (#[trigger] self@[i] matches Some(q) ==> q.len() <= self.cap())
    }

    /// A broadcaster with no subscribers whose buffers hold `capacity` events.
    pub fn new(capacity: usize) -> (r: Broadcaster)
        requires
            capacity > 0,
        ensures
            r.wf(),
            r@ == Seq::<Option<Seq<EventView>>>::empty(),
            r.cap() == capacity,
    {
        let r = Broadcaster { capacity, subs: Vec::new() };
        assert(r@ =~= Seq::<Option<Seq<EventView>>>::empty());
        r
    }

    /// Adds a subscriber with an empty buffer and returns its number. The
    /// slot of the first disconnected subscriber is reused, so the list
    /// grows only with the number of subscribers connected at once.
    pub fn subscribe(&mut self) -> (r: usize)
        requires
            old(self).wf(),
        ensures
            final(self).wf(),
            final(self).cap() == old(self).cap(),
            r <= old(self)@.len(),
            forall|j: int| 0 <= j < r ==> #[trigger] old(self)@[j] is Some,
            r < old(self)@.len() ==> old(self)@[r as int] is None && final(self)@ == old(self)@.update(
                r as int,
                Some(Seq::<EventView>::empty()),
            ),
            r == old(self)@.len() ==> final(self)@ == old(self)@.push(Some(Seq::<EventView>::empty())),
    {
        proof {
            self.lemma_view();
            assert(events_of(Seq::<ChangeEvent>::empty()) =~= Seq::<EventView>::empty());
        }
        let mut i: usize = 0;
        while i < self.subs.len()
            invariant
                i <= self.subs@.len(),
                self.subs@ == old(self).subs@,
                self.capacity == old(self).capacity,
                old(self).wf(),
                forall|j: int| 0 <= j < i ==> #[trigger] self.subs@[j].open,
            decreases self.subs@.len() - i,
        {
            if !self.subs[i].open {
                self.subs.set(i, Subscriber { open: true, pending: Vec::new() });
                proof {
                    self.lemma_view();
                    old(self).lemma_view();
                    assert(events_of(Seq::<ChangeEvent>::empty()) =~= Seq::<EventView>::empty());
                    assert(self@ =~= old(self)@.update(i as int, Some(Seq::<EventView>::empty())));
                    assert forall|j: int| 0 <= j < self@.len() implies (#[trigger] self@[j] matches Some(q) ==> q.len() <= self.cap()) by {
                        if j != i {
                            assert(self@[j] == old(self)@[j]);
                        }
                    }
                }
                return i;
            }
            i = i + 1;
        }
        let r = self.subs.len();
        self.subs.push(Subscriber { open: true, pending: Vec::new() });
        proof {
            self.lemma_view();
            old(self).lemma_view();
            assert(self@ =~= old(self)@.push(Some(Seq::<EventView>::empty())));
        }
        r
    }

    /// Disconnects subscriber `id`, dropping its buffer.
    pub fn unsubscribe(&mut self, id: usize)
        requires
            old(self).wf(),
        ensures
            final(self).wf(),
            final(self).cap() == old(self).cap(),
            id < old(self)@.len() ==> final(self)@ == old(self)@.update(id as int, None),
            id >= old(self)@.len() ==> final(self)@ == old(self)@,
    {
        if id < self.subs.len() {
            self.subs.set(id, Subscriber { open: false, pending: Vec::new() });
            proof {
                assert(self@ =~= old(self)@.update(id as int, None));
            }
        }
    }

    /// Delivers `e` to every connected subscriber. A full buffer drops its
    /// oldest event, so publishing never waits on a subscriber.
    pub fn publish(&mut self, e: &ChangeEvent)
        requires
            old(self).wf(),
        ensures
            final(self).wf(),
            final(self).cap() == old(self).cap(),
            final(self)@.len() == old(self)@.len(),
            forall|i: int|
                0 <= i < old(self)@.len() ==> #[trigger] final(self)@[i] == match old(self)@[i] {
                    Some(q) => Some(window(q.push(event_view(*e)), old(self).cap())),
                    None => None,
                },
    {
        let ghost before = self@;
        let mut i: usize = 0;
        while i < self.subs.len()
            invariant
                self.cap() == old(self).cap(),
                self.cap() > 0,
                self@.len() == before.len(),
                before == old(self)@,
                forall|j: int| 0 <= j < before.len() ==> (#[trigger] before[j] matches Some(q) ==> q.len() <= self.cap()),
                forall|j: int|
                    0 <= j < i ==> #[trigger] self@[j] == match before[j] {
                        Some(q) => Some(window(q.push(event_view(*e)), self.cap())),
                        None => None,
                    },
                forall|j: int| i <= j < before.len() ==> #[trigger] self@[j] == before[j],
            decreases before.len() - i,
        {
            proof {
                self.lemma_view();
                lemma_events_of(self.subs@[i as int].pending@);
                assert(self@[i as int] == before[i as int]);
            }
            if self.subs[i].open {
                let next = self.with_event(i, e);
                let ghost s0 = self@;
                self.subs.set(i, Subscriber { open: true, pending: next });
                proof {
                    self.lemma_view();
                    assert(self@ =~= s0.update(i as int, Some(events_of(next@))));
                }
            }
            i = i + 1;
        }
    }

    /// The buffer of subscriber `i` with `e` appended, cut to the latest
    /// `capacity` events.
    fn with_event(&self, i: usize, e: &ChangeEvent) -> (r: Vec<ChangeEvent>)
        requires
            i < self.subs@.len(),
            self.capacity > 0,
            self.subs@[i as int].pending@.len() <= self.capacity,
        ensures
            events_of(r@) == window(events_of(self.subs@[i as int].pending@).push(event_view(*e)), self.cap()),
    {
        let pend = &self.subs[i].pending;
        let n = pend.len();
        let start: usize = if n >= self.capacity {
            n - self.capacity + 1
        } else {
            0
        };
        let ghost full = events_of(pend@).push(event_view(*e));
        let mut out: Vec<ChangeEvent> = Vec::new();
        let mut k: usize = start;
        while k < n
            invariant
                start <= k <= n,
                n == pend@.len(),
                events_of(out@) =~= events_of(pend@).subrange(start as int, k as int),
            decreases n - k,
        {
            let d = pend[k].duplicate();
            proof {
                lemma_events_push(out@, d);
                lemma_events_of(pend@);
            }
            out.push(d);
            k = k + 1;
        }
        let d = e.duplicate();
        proof {
            lemma_events_push(out@, d);
            lemma_events_of(pend@);
        }
        out.push(d);
        proof {
            assert(events_of(out@) =~= window(full, self.cap()));
        }
        out
    }

    /// Takes the oldest buffered event of subscriber `id`, if any.
    pub fn receive(&mut self, id: usize) -> (r: Option<ChangeEvent>)
        requires
            old(self).wf(),
        ensures
            final(self).wf(),
            final(self).cap() == old(self).cap(),
            has_pending(old(self)@, id as int) ==> {
                &&& r is Some
                &&& event_view(r.unwrap()) == old(self)@[id as int].unwrap()[0]
                &&& final(self)@ == old(self)@.update(id as int, Some(old(self)@[id as int].unwrap().drop_first()))
            },
            !has_pending(old(self)@, id as int) ==> {
                &&& r is None
                &&& final(self)@ == old(self)@
            },
    {
        if id >= self.subs.len() || !self.subs[id].open || self.subs[id].pending.len() == 0 {
            return None;
        }
        let pend = &self.subs[id].pending;
        let n = pend.len();
        let first = pend[0].duplicate();
        let mut rest: Vec<ChangeEvent> = Vec::new();
        let mut k: usize = 1;
        while k < n
            invariant
                1 <= k <= n,
                n == pend@.len(),
                events_of(rest@) =~= events_of(pend@).subrange(1, k as int),
            decreases n - k,
        {
            let d = pend[k].duplicate();
            proof {
                lemma_events_push(rest@, d);
                lemma_events_of(pend@);
            }
            rest.push(d);
            k = k + 1;
        }
        proof {
            self.lemma_view();
            lemma_events_of(pend@);
        }
        self.subs.set(id, Subscriber { open: true, pending: rest });
        proof {
            self.lemma_view();
            assert(events_of(rest@) =~= events_of(old(self).subs@[id as int].pending@).drop_first());
            assert(self@ =~= old(self)@.update(
                id as int,
                Some(events_of(old(self).subs@[id as int].pending@).drop_first()),
            ));
        }
        Some(first)
    }
}

} // verus!
