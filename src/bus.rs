//! The broadcast bus: one publish point, one bounded queue per subscriber.
//! A full queue drops its oldest message and counts the loss, which its
//! subscriber is told of as a distinct signal.
use vstd::prelude::*;

verus! {

/// A subscriber as the contracts see it: its identity, the messages waiting
/// for it, oldest first, and how many it lost since it last heard of a loss.
pub type SubView = (u64, Seq<String>, u64);

/// The bus as the contracts see it.
pub ghost struct BusView {
    pub capacity: nat,
    pub closed: bool,
    pub next_id: u64,
    pub subs: Seq<SubView>,
}

/// What a subscriber finds when it asks for its next message.
pub enum Delivery {
    /// The oldest message that was waiting.
    Message(String),
    /// This many messages were dropped since the last such signal.
    Lagged(u64),
    /// The bus is shut down and nothing is left for this subscriber.
    Closed,
    /// Nothing is waiting yet.
    Empty,
}

/// The bus was shut down: nothing can be published any more.
pub struct BusClosed;

/// A queue after `m` arrives: it is appended, and a full queue first drops its
/// oldest message.
pub open spec fn enqueued(q: Seq<String>, m: String, capacity: nat) -> Seq<String> {
    if q.len() < capacity {
        q.push(m)
    } else {
        q.drop_first().push(m)
    }
}

/// The loss count after a message arrives on queue `q`.
pub open spec fn missed_after(q: Seq<String>, missed: u64, capacity: nat) -> u64 {
    if q.len() < capacity {
        missed
    } else if missed < u64::MAX {
        (missed + 1) as u64
    } else {
        missed
    }
}

/// One subscriber after `m` is published.
pub open spec fn delivered(s: SubView, m: String, capacity: nat) -> SubView {
    (s.0, enqueued(s.1, m, capacity), missed_after(s.1, s.2, capacity))
}

/// All subscribers after `m` is published: each one's new state depends on
/// its own old state alone.
pub open spec fn published(subs: Seq<SubView>, m: String, capacity: nat) -> Seq<SubView> {
    subs.map_values(|s: SubView| delivered(s, m, capacity))
}

/// Whether `id` is subscribed.
pub open spec fn is_subscribed(subs: Seq<SubView>, id: u64) -> bool {
    exists|i: int| 0 <= i < subs.len() && #[trigger] subs[i].0 == id
}

pub struct Subscription {
    id: u64,
    queue: Vec<String>,
    missed: u64,
}

impl View for Subscription {
    type V = SubView;

    closed spec fn view(&self) -> SubView {
        (self.id, self.queue@, self.missed)
    }
}

/// The fan-out channel shared by all sessions.
pub struct Bus {
    capacity: usize,
    next_id: u64,
    closed: bool,
    subs: Vec<Subscription>,
}

impl View for Bus {
    type V = BusView;

    closed spec fn view(&self) -> BusView {
        BusView {
            capacity: self.capacity as nat,
            closed: self.closed,
            next_id: self.next_id,
            subs: self.subs@.map_values(|s: Subscription| s@),
        }
    }
}

impl BusView {
    /// Queues are bounded by a positive capacity, identities are distinct and
    /// below the next one to be handed out.
    pub open spec fn wf(self) -> bool {
        &&& self.capacity > 0
        &&& forall|i: int| 0 <= i < self.subs.len() ==> (#[trigger] self.subs[i]).1.len() <= self.capacity
        &&& forall|i: int| 0 <= i < self.subs.len() ==> (#[trigger] self.subs[i]).0 < self.next_id
        &&& forall|i: int, j: int|
            0 <= i < self.subs.len() && 0 <= j < self.subs.len() && i != j ==> self.subs[i].0
                != self.subs[j].0
    }
}

impl Bus {
    /// A bus whose subscribers each buffer at most `capacity` messages.
    pub fn new(capacity: usize) -> (b: Bus)
        requires
            capacity > 0,
        ensures
            b@.wf(),
            b@.capacity == capacity,
            !b@.closed,
            b@.next_id == 0,
            b@.subs == Seq::<SubView>::empty(),
    {
        let b = Bus { capacity, next_id: 0, closed: false, subs: Vec::new() };
        assert(b@.subs =~= Seq::<SubView>::empty());
        b
    }

    /// Number of subscribers.
    pub fn subscriber_count(&self) -> (n: usize)
        ensures
            n == self@.subs.len(),
    {
        self.subs.len()
    }

    /// Whether the bus was shut down.
    pub fn is_closed(&self) -> (c: bool)
        ensures
            c == self@.closed,
    {
        self.closed
    }

    /// A new subscriber, fed only what is published from now on. `None` once
    /// every identity has been handed out.
    pub fn subscribe(&mut self) -> (r: Option<u64>)
        requires
            old(self)@.wf(),
        ensures
            final(self)@.wf(),
            final(self)@.capacity == old(self)@.capacity,
            final(self)@.closed == old(self)@.closed,
            r is None <==> old(self)@.next_id == u64::MAX,
            r is None ==> final(self)@ == old(self)@,
            r matches Some(id) ==> {
                &&& id == old(self)@.next_id
                &&& !is_subscribed(old(self)@.subs, id)
                &&& final(self)@.subs == old(self)@.subs.push((id, Seq::<String>::empty(), 0u64))
            },
    {
        if self.next_id == u64::MAX {
            return None;
        }
        let id = self.next_id;
        let ghost old_subs = self@.subs;
        let s = Subscription { id, queue: Vec::new(), missed: 0 };
        assert(s@ == (id, Seq::<String>::empty(), 0u64));
        self.subs.push(s);
        self.next_id = id + 1;
        assert(self@.subs =~= old_subs.push((id, Seq::<String>::empty(), 0u64)));
        Some(id)
    }

    /// Ends the subscription `id`; its waiting messages are discarded. Nothing
    /// happens for an identity that is not subscribed.
    pub fn unsubscribe(&mut self, id: u64)
        requires
            old(self)@.wf(),
        ensures
            final(self)@.wf(),
            final(self)@.capacity == old(self)@.capacity,
            final(self)@.closed == old(self)@.closed,
            final(self)@.next_id == old(self)@.next_id,
            !is_subscribed(final(self)@.subs, id),
            !is_subscribed(old(self)@.subs, id) ==> final(self)@ == old(self)@,
            is_subscribed(old(self)@.subs, id) ==> exists|i: int|
                0 <= i < old(self)@.subs.len() && old(self)@.subs[i].0 == id && final(self)@.subs
                    == old(self)@.subs.remove(i),
    {
        let n = self.subs.len();
        let mut i: usize = 0;
        while i < n
            invariant
                n == self.subs@.len(),
                self@ == old(self)@,
                old(self)@.wf(),
                i <= n,
                forall|k: int| 0 <= k < i ==> #[trigger] self@.subs[k].0 != id,
            decreases n - i,
        {
            if self.subs[i].id == id {
                let ghost before = self@;
                self.subs.remove(i);
                assert(before.subs[i as int].0 == id);
                assert(is_subscribed(old(self)@.subs, id));
                assert(self@.subs =~= before.subs.remove(i as int));
                assert forall|k: int| 0 <= k < self@.subs.len() implies #[trigger] self@.subs[k].0
                    != id by {
                    if k < i {
                        assert(self@.subs[k] == before.subs[k]);
                    } else {
                        assert(self@.subs[k] == before.subs[k + 1]);
                    }
                }
                return;
            }
            i = i + 1;
        }
    }

    /// Hands `m` to every current subscriber. Never waits on any of them: a
    /// full queue drops its oldest message. Fails only once the bus is shut down.
    pub fn publish(&mut self, m: String) -> (r: Result<(), BusClosed>)
        requires
            old(self)@.wf(),
        ensures
            final(self)@.wf(),
            r is Err <==> old(self)@.closed,
            r is Err ==> final(self)@ == old(self)@,
            r is Ok ==> final(self)@ == (BusView {
                subs: published(old(self)@.subs, m, old(self)@.capacity),
                ..old(self)@
            }),
    {
        if self.closed {
            return Err(BusClosed);
        }
        let n = self.subs.len();
        let cap = self.capacity;
        let mut i: usize = 0;
        while i < n
            invariant
                n == self.subs@.len(),
                cap == self.capacity,
                i <= n,
                old(self)@.wf(),
                self@.capacity == old(self)@.capacity,
                self@.closed == old(self)@.closed,
                self@.next_id == old(self)@.next_id,
                forall|k: int| 0 <= k < i ==> #[trigger] self@.subs[k] == delivered(old(self)@.subs[k], m, old(self)@.capacity),
                forall|k: int| i <= k < n ==> #[trigger] self@.subs[k] == old(self)@.subs[k],
            decreases n - i,
        {
            let ghost before = self@;
            let mut s = self.subs.remove(i);
            assert(s@ == before.subs[i as int]);
            assert(s@ == old(self)@.subs[i as int]);
            if s.queue.len() < cap {
                s.queue.push(m.clone());
            } else {
                s.queue.remove(0);
                s.queue.push(m.clone());
                if s.missed < u64::MAX {
                    s.missed = s.missed + 1;
                }
            }
            assert(s@.1 =~= enqueued(old(self)@.subs[i as int].1, m, old(self)@.capacity));
            assert(s@ == delivered(old(self)@.subs[i as int], m, old(self)@.capacity));
            self.subs.insert(i, s);
            assert forall|k: int| 0 <= k < n implies #[trigger] self@.subs[k] == (if k == i {
                s@
            } else {
                before.subs[k]
            }) by {
                if k < i {
                    assert(self.subs@[k]@ == before.subs[k]);
                }
            }
            i = i + 1;
        }
        proof {
            let p = published(old(self)@.subs, m, old(self)@.capacity);
            assert(self@.subs =~= p);
            assert forall|k: int| 0 <= k < p.len() implies (#[trigger] p[k]).1.len() <= old(self)@.capacity by {
                assert(p[k] == delivered(old(self)@.subs[k], m, old(self)@.capacity));
            }
        }
        Ok(())
    }

    /// Shuts the bus down: later publishes fail, and each subscriber is told
    /// so once its queue is drained.
    pub fn close(&mut self)
        ensures
            final(self)@ == (BusView { closed: true, ..old(self)@ }),
    {
        self.closed = true;
    }

    /// The next thing subscriber `id` is owed: first a loss signal if it lost
    /// messages, then its oldest waiting message, then `Closed` once the bus is
    /// shut down, else `Empty`. An identity that is not subscribed gets `Closed`.
    pub fn receive(&mut self, id: u64) -> (d: Delivery)
        requires
            old(self)@.wf(),
        ensures
            final(self)@.wf(),
            final(self)@.capacity == old(self)@.capacity,
            final(self)@.closed == old(self)@.closed,
            final(self)@.next_id == old(self)@.next_id,
            !is_subscribed(old(self)@.subs, id) ==> d is Closed && final(self)@ == old(self)@,
            forall|i: int|
                0 <= i < old(self)@.subs.len() && #[trigger] old(self)@.subs[i].0 == id ==> {
                    let s = old(self)@.subs[i];
                    if s.2 > 0 {
                        d == Delivery::Lagged(s.2) && final(self)@.subs == old(self)@.subs.update(
                            i,
                            (id, s.1, 0u64),
                        )
                    } else if s.1.len() > 0 {
                        d == Delivery::Message(s.1[0]) && final(self)@.subs
                            == old(self)@.subs.update(i, (id, s.1.drop_first(), 0u64))
                    } else {
                        final(self)@ == old(self)@ && (if old(self)@.closed {
                            d is Closed
                        } else {
                            d is Empty
                        })
                    }
                },
    {
        let n = self.subs.len();
        let mut i: usize = 0;
        while i < n
            invariant
                n == self.subs@.len(),
                self@ == old(self)@,
                old(self)@.wf(),
                i <= n,
                forall|k: int| 0 <= k < i ==> #[trigger] self@.subs[k].0 != id,
            decreases n - i,
        {
            if self.subs[i].id == id {
                let ghost before = self@;
                let mut s = self.subs.remove(i);
                assert(s@ == before.subs[i as int]);
                let d;
                if s.missed > 0 {
                    d = Delivery::Lagged(s.missed);
                    s.missed = 0;
                } else if s.queue.len() > 0 {
                    let m = s.queue.remove(0);
                    d = Delivery::Message(m);
                } else if self.closed {
                    d = Delivery::Closed;
                } else {
                    d = Delivery::Empty;
                }
                self.subs.insert(i, s);
                assert(self@.subs =~= before.subs.update(i as int, s@));
                proof {
                    let t = before.subs[i as int];
                    assert forall|k: int| 0 <= k < self@.subs.len() implies (
                    #[trigger] self@.subs[k]).1.len() <= self@.capacity by {
                        if k != i {
                            assert(self@.subs[k] == before.subs[k]);
                        }
                    }
                    if t.2 == 0 && t.1.len() == 0 {
                        assert(self@.subs =~= before.subs);
                    }
                    if t.2 == 0 && t.1.len() > 0 {
                        assert(s@.1 =~= t.1.drop_first());
                    }
                }
                return d;
            }
            i = i + 1;
        }
        Delivery::Closed
    }
}

/// A message published on an open bus reaches every current subscriber: it
/// becomes the newest entry of that subscriber's queue, behind what was already
/// waiting there (a full queue gives up only its oldest entry). The set of
/// subscribers is unchanged, so an identity that was not subscribed when the
/// message was published never receives it.
pub proof fn lemma_publish_reaches_subscribers(b: BusView, m: String)
    requires
        b.wf(),
    ensures
        published(b.subs, m, b.capacity).len() == b.subs.len(),
        forall|i: int|
            0 <= i < b.subs.len() ==> {
                let after = #[trigger] published(b.subs, m, b.capacity)[i];
                &&& after.0 == b.subs[i].0
                &&& after.1.len() > 0
                &&& after.1.last() == m
                &&& after.1.drop_last() == if b.subs[i].1.len() < b.capacity {
                    b.subs[i].1
                } else {
                    b.subs[i].1.drop_first()
                }
            },
        forall|id: u64|
            #[trigger] is_subscribed(published(b.subs, m, b.capacity), id) <==> is_subscribed(
                b.subs,
                id,
            ),
{
    let p = published(b.subs, m, b.capacity);
    assert forall|i: int| 0 <= i < b.subs.len() implies {
        let after = #[trigger] p[i];
        &&& after.0 == b.subs[i].0
        &&& after.1.len() > 0
        &&& after.1.last() == m
        &&& after.1.drop_last() == if b.subs[i].1.len() < b.capacity {
            b.subs[i].1
        } else {
            b.subs[i].1.drop_first()
        }
    } by {
        let q = b.subs[i].1;
        if q.len() < b.capacity {
            assert(p[i].1.drop_last() =~= q);
        } else {
            assert(p[i].1.drop_last() =~= q.drop_first());
        }
    }
    assert forall|id: u64| #[trigger] is_subscribed(p, id) <==> is_subscribed(b.subs, id) by {
        if is_subscribed(p, id) {
            let i = choose|i: int| 0 <= i < p.len() && #[trigger] p[i].0 == id;
            assert(b.subs[i].0 == id);
        }
        if is_subscribed(b.subs, id) {
            let i = choose|i: int| 0 <= i < b.subs.len() && #[trigger] b.subs[i].0 == id;
            assert(p[i].0 == id);
        }
    }
}

/// A slow subscriber harms nobody else: two buses that differ only in what
/// one subscriber holds (a full queue, a loss count) give every other
/// subscriber the same state when the same message is published on both.
pub proof fn lemma_slow_subscriber_isolated(a: BusView, b: BusView, k: int, m: String)
    requires
        a.wf(),
        b.wf(),
        a.capacity == b.capacity,
        a.subs.len() == b.subs.len(),
        0 <= k < a.subs.len(),
        forall|i: int| 0 <= i < a.subs.len() && i != k ==> a.subs[i] == b.subs[i],
    ensures
        forall|i: int|
            0 <= i < a.subs.len() && i != k ==> #[trigger] published(a.subs, m, a.capacity)[i]
                == published(b.subs, m, b.capacity)[i],
{
}

/// Publishing the same message twice delivers it twice: a subscriber with
/// room for both finds two copies, in order, behind what it held.
pub proof fn lemma_repeated_publish_delivers_twice(b: BusView, m: String)
    requires
        b.wf(),
    ensures
        forall|i: int|
            0 <= i < b.subs.len() && b.subs[i].1.len() + 2 <= b.capacity ==> (#[trigger] published(
                published(b.subs, m, b.capacity),
                m,
                b.capacity,
            )[i]).1 == b.subs[i].1 + seq![m, m],
{
    assert forall|i: int|
        0 <= i < b.subs.len() && b.subs[i].1.len() + 2 <= b.capacity implies (#[trigger] published(
        published(b.subs, m, b.capacity),
        m,
        b.capacity,
    )[i]).1 == b.subs[i].1 + seq![m, m] by {
        let once = published(b.subs, m, b.capacity);
        assert(once[i].1 == b.subs[i].1.push(m));
        assert(published(once, m, b.capacity)[i].1 =~= b.subs[i].1 + seq![m, m]);
    }
}

} // verus!
