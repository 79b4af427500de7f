//! The bus: every message that is sent goes to every subscriber, each at its
//! own pace. A subscriber holds at most `capacity` unread messages; one that
//! has no room misses the message, learns of it with the next one it gets,
//! and holds up neither the sender nor the other subscribers.

use std::collections::VecDeque;
use vstd::prelude::*;
use crate::message::{Message, MessageView};

verus! {

/// The capacity of the station's bus.
pub const BUS_CAPACITY: usize = 128;

/// A message as a subscriber receives it.
#[derive(Debug, PartialEq)]
pub struct Delivery {
    /// How many messages this subscriber missed just before this one.
    pub missed: u64,
    pub message: Message,
}

/// A [`Delivery`] as contracts see it.
pub struct DeliveryView {
    pub missed: nat,
    pub message: MessageView,
}

impl View for Delivery {
    type V = DeliveryView;

    open spec fn view(&self) -> DeliveryView {
        DeliveryView { missed: self.missed as nat, message: self.message@ }
    }
}

/// Deliveries as contracts see them.
pub open spec fn deliveries_view(deliveries: Seq<Delivery>) -> Seq<DeliveryView> {
    Seq::new(deliveries.len(), |i: int| deliveries[i]@)
}

/// What became of one send.
#[derive(Clone, Copy, Debug, PartialEq, Eq, Structural)]
pub struct SendReport {
    /// The subscribers that took the message.
    pub delivered: usize,
    /// The subscribers that had no room for it.
    pub dropped: usize,
}

struct Subscriber {
    queue: VecDeque<Delivery>,
    missed: u64,
}

/// One subscriber as contracts see it: what it has not read yet, oldest
/// first, and how many messages it has missed since the newest of them.
pub struct SubscriberView {
    pub queue: Seq<DeliveryView>,
    pub missed: nat,
}

/// A [`Bus`] as contracts see it.
pub struct BusView {
    pub capacity: nat,
    pub subscribers: Seq<SubscriberView>,
}

impl SubscriberView {
    /// The subscriber after a message was sent: with room it queues the
    /// message, without room it counts one more missed. The count stops at
    /// the largest 64-bit number.
    pub open spec fn accept(self, capacity: nat, message: MessageView) -> SubscriberView {
        if self.queue.len() < capacity {
            SubscriberView {
                queue: self.queue.push(DeliveryView { missed: self.missed, message: message }),
                missed: 0,
            }
        } else {
            SubscriberView {
                queue: self.queue,
                missed: if self.missed < u64::MAX {
                    self.missed + 1
                } else {
                    self.missed
                },
            }
        }
    }

    /// The subscriber after all its unread messages were taken.
    pub open spec fn emptied(self) -> SubscriberView {
        SubscriberView { queue: Seq::empty(), missed: self.missed }
    }

    /// The subscriber after its oldest unread message was taken.
    pub open spec fn taken(self) -> SubscriberView {
        SubscriberView { queue: self.queue.drop_first(), missed: self.missed }
    }
}

/// How many of the subscribers have no room.
pub open spec fn full_count(subscribers: Seq<SubscriberView>, capacity: nat) -> nat
    decreases subscribers.len(),
{
    if subscribers.len() == 0 {
        0
    } else {
        full_count(subscribers.drop_last(), capacity) + if subscribers.last().queue.len()
            < capacity {
            0nat
        } else {
            1nat
        }
    }
}

impl BusView {
    /// No subscriber holds more than `capacity` messages or a count beyond
    /// 64 bits. A new [`Bus`] is so, and every method keeps it so.
    pub open spec fn wf(self) -> bool {
        forall|i: int|
            0 <= i < self.subscribers.len() ==> (#[trigger] self.subscribers[i]).queue.len()
                <= self.capacity && self.subscribers[i].missed <= u64::MAX
    }

    /// The bus after `message` was sent.
    pub open spec fn send(self, message: MessageView) -> BusView {
        BusView {
            capacity: self.capacity,
            subscribers: Seq::new(
                self.subscribers.len(),
                |i: int| self.subscribers[i].accept(self.capacity, message),
            ),
        }
    }

    /// The bus after the messages were sent, one after the other.
    pub open spec fn send_all(self, messages: Seq<MessageView>) -> BusView
        decreases messages.len(),
    {
        if messages.len() == 0 {
            self
        } else {
            self.send_all(messages.drop_last()).send(messages.last())
        }
    }

    /// How many of the messages, sent one after the other, some subscriber
    /// has no room for.
    pub open spec fn lossy_sends(self, messages: Seq<MessageView>) -> nat
        decreases messages.len(),
    {
        if messages.len() == 0 {
            0
        } else {
            self.lossy_sends(messages.drop_last()) + if full_count(
                self.send_all(messages.drop_last()).subscribers,
                self.capacity,
            ) > 0 {
                1nat
            } else {
                0nat
            }
        }
    }

    /// The bus after a new subscriber joined.
    pub open spec fn subscribe(self) -> BusView {
        BusView {
            capacity: self.capacity,
            subscribers: self.subscribers.push(
                SubscriberView { queue: Seq::empty(), missed: 0 },
            ),
        }
    }

    /// The bus after subscriber `id` took all its unread messages.
    pub open spec fn drain(self, id: int) -> BusView {
        BusView {
            capacity: self.capacity,
            subscribers: self.subscribers.update(id, self.subscribers[id].emptied()),
        }
    }

    /// The bus after subscriber `id` took its oldest unread message.
    pub open spec fn take(self, id: int) -> BusView {
        BusView {
            capacity: self.capacity,
            subscribers: self.subscribers.update(id, self.subscribers[id].taken()),
        }
    }
}

impl View for Subscriber {
    type V = SubscriberView;

    closed spec fn view(&self) -> SubscriberView {
        SubscriberView {
            queue: Seq::new(self.queue@.len(), |i: int| self.queue@[i]@),
            missed: self.missed as nat,
        }
    }
}

/// The bounded, lossy, many-reader channel between the parts of the station.
pub struct Bus {
    capacity: usize,
    subscribers: Vec<Subscriber>,
}

impl View for Bus {
    type V = BusView;

    closed spec fn view(&self) -> BusView {
        BusView {
            capacity: self.capacity as nat,
            subscribers: Seq::new(self.subscribers@.len(), |i: int| self.subscribers@[i]@),
        }
    }
}

impl Bus {
    /// An empty bus whose subscribers will each hold up to `capacity` unread
    /// messages.
    pub fn new(capacity: usize) -> (bus: Bus)
        ensures
            bus@ == (BusView { capacity: capacity as nat, subscribers: Seq::empty() }),
            bus@.wf(),
    {
        let bus = Bus { capacity, subscribers: Vec::new() };
        assert(bus@.subscribers =~= Seq::empty());
        bus
    }

    /// The most unread messages that a subscriber holds.
    pub fn capacity(&self) -> (capacity: usize)
        ensures
            capacity == self@.capacity,
    {
        self.capacity
    }

    /// The number of subscribers.
    pub fn subscribers(&self) -> (count: usize)
        ensures
            count == self@.subscribers.len(),
    {
        self.subscribers.len()
    }

    /// Adds a subscriber, which gets what is sent from now on. Returns the
    /// number by which it reads.
    pub fn subscribe(&mut self) -> (id: usize)
        ensures
            final(self)@ == old(self)@.subscribe(),
            id == old(self)@.subscribers.len(),
            old(self)@.wf() ==> final(self)@.wf(),
    {
        let id = self.subscribers.len();
        let subscriber = Subscriber { queue: VecDeque::new(), missed: 0 };
        assert(subscriber@.queue =~= Seq::empty());
        self.subscribers.push(subscriber);
        assert(self@.subscribers =~= old(self)@.subscribe().subscribers);
        id
    }

    /// Sends `message` to every subscriber and returns at once. A subscriber
    /// without room misses it.
    pub fn send(&mut self, message: &Message) -> (report: SendReport)
        ensures
            final(self)@ == old(self)@.send(message@),
            report.dropped == full_count(old(self)@.subscribers, old(self)@.capacity),
            report.delivered + report.dropped == old(self)@.subscribers.len(),
            old(self)@.wf() ==> final(self)@.wf(),
    {
        let mut delivered: usize = 0;
        let mut dropped: usize = 0;
        let mut i: usize = 0;
        let count = self.subscribers.len();
        let ghost wanted = old(self)@.send(message@);
        assert(old(self)@.subscribers.take(0) =~= Seq::empty());
        while i < count
            invariant
                i <= count,
                count == self.subscribers@.len(),
                count == old(self).subscribers@.len(),
                self.capacity == old(self).capacity,
                wanted == old(self)@.send(message@),
                delivered + dropped == i,
                dropped == full_count(old(self)@.subscribers.take(i as int), self.capacity as nat),
                forall|k: int|
                    0 <= k < i ==> (#[trigger] self.subscribers@[k])@ == wanted.subscribers[k],
                forall|k: int|
                    i <= k < count ==> (#[trigger] self.subscribers@[k])@ == old(
                        self,
                    )@.subscribers[k],
            decreases count - i,
        {
            let ghost before = self.subscribers@;
            let ghost seen = old(self)@.subscribers[i as int];
            assert(before[i as int]@ == seen);
            let capacity = self.capacity;
            let copy = message.clone();
            let subscriber = &mut self.subscribers[i];
            let ghost queue_before = subscriber.queue@;
            if subscriber.queue.len() < capacity {
                let delivery = Delivery { missed: subscriber.missed, message: copy };
                subscriber.queue.push_back(delivery);
                subscriber.missed = 0;
                delivered = delivered + 1;
                assert(subscriber@.queue =~= seen.queue.push(delivery@));
            } else {
                if subscriber.missed < u64::MAX {
                    subscriber.missed = subscriber.missed + 1;
                }
                dropped = dropped + 1;
                assert(subscriber@.queue =~= seen.queue);
            }
            proof {
                let early = old(self)@.subscribers.take(i + 1);
                assert(early.drop_last() =~= old(self)@.subscribers.take(i as int));
                assert(early.last() == seen);
            }
            i = i + 1;
        }
        proof {
            assert(old(self)@.subscribers.take(count as int) =~= old(self)@.subscribers);
            assert(self@.subscribers =~= wanted.subscribers);
        }
        SendReport { delivered, dropped }
    }

    /// Takes the oldest unread message of subscriber `id`. Returns `None`
    /// where it has none, or where there is no such subscriber.
    pub fn recv(&mut self, id: usize) -> (delivery: Option<Delivery>)
        ensures
            match delivery {
                Some(d) => id < old(self)@.subscribers.len() && old(
                    self,
                )@.subscribers[id as int].queue.len() > 0 && d@ == old(
                    self,
                )@.subscribers[id as int].queue[0] && final(self)@ == old(self)@.take(id as int),
                None => (id >= old(self)@.subscribers.len() || old(
                    self,
                )@.subscribers[id as int].queue.len() == 0) && final(self)@ == old(self)@,
            },
            old(self)@.wf() ==> final(self)@.wf(),
    {
        if id >= self.subscribers.len() {
            return None;
        }
        let ghost before = self.subscribers@;
        let subscriber = &mut self.subscribers[id];
        let ghost seen = subscriber@;
        let delivery = subscriber.queue.pop_front();
        proof {
            if delivery is Some {
                assert(subscriber@.queue =~= seen.queue.drop_first());
            } else {
                assert(subscriber@.queue =~= seen.queue);
            }
        }
        proof {
            if delivery is Some {
                assert(self@.subscribers =~= old(self)@.take(id as int).subscribers);
            } else {
                assert(self@.subscribers =~= old(self)@.subscribers);
            }
        }
        delivery
    }

    /// Takes all unread messages of subscriber `id`, oldest first. Returns
    /// none where it has none, or where there is no such subscriber.
    pub fn drain(&mut self, id: usize) -> (batch: VecDeque<Delivery>)
        ensures
            id < old(self)@.subscribers.len() ==> deliveries_view(batch@) == old(
                self,
            )@.subscribers[id as int].queue && final(self)@ == old(self)@.drain(id as int),
            id >= old(self)@.subscribers.len() ==> batch@.len() == 0 && final(self)@ == old(
                self,
            )@,
            old(self)@.wf() ==> final(self)@.wf(),
    {
        let mut batch: VecDeque<Delivery> = VecDeque::new();
        if id < self.subscribers.len() {
            let subscriber = &mut self.subscribers[id];
            std::mem::swap(&mut subscriber.queue, &mut batch);
            assert(subscriber@.queue =~= Seq::empty());
            assert(self@.subscribers =~= old(self)@.drain(id as int).subscribers);
            assert(deliveries_view(batch@) =~= old(self)@.subscribers[id as int].queue);
        } else {
            assert(self@.subscribers =~= old(self)@.subscribers);
        }
        batch
    }

    /// The number of messages that subscriber `id` has not read yet.
    pub fn unread(&self, id: usize) -> (count: usize)
        ensures
            id < self@.subscribers.len() ==> count == self@.subscribers[id as int].queue.len(),
            id >= self@.subscribers.len() ==> count == 0,
    {
        if id < self.subscribers.len() {
            self.subscribers[id].queue.len()
        } else {
            0
        }
    }

    /// The number of messages that subscriber `id` has missed since the
    /// newest message it holds.
    pub fn missed(&self, id: usize) -> (count: u64)
        ensures
            id < self@.subscribers.len() ==> count == self@.subscribers[id as int].missed,
            id >= self@.subscribers.len() ==> count == 0,
    {
        if id < self.subscribers.len() {
            self.subscribers[id].missed
        } else {
            0
        }
    }
}

/// The deliveries of messages that a subscriber queued one after the other:
/// the first tells of the `missed` messages before it, the others of none.
pub open spec fn queued(messages: Seq<MessageView>, missed: nat) -> Seq<DeliveryView> {
    Seq::new(
        messages.len(),
        |i: int|
            DeliveryView {
                missed: if i == 0 {
                    missed
                } else {
                    0
                },
                message: messages[i],
            },
    )
}

/// The smaller of two numbers.
pub open spec fn least(a: int, b: int) -> int {
    if a <= b {
        a
    } else {
        b
    }
}

/// Sending keeps the capacity of the bus.
pub proof fn lemma_send_all_keeps_capacity(bus: BusView, messages: Seq<MessageView>)
    ensures
        bus.send_all(messages).capacity == bus.capacity,
    decreases messages.len(),
{
    if messages.len() != 0 {
        lemma_send_all_keeps_capacity(bus, messages.drop_last());
    }
}

/// Sending keeps the number of subscribers.
pub proof fn lemma_send_all_keeps_len(bus: BusView, messages: Seq<MessageView>)
    ensures
        bus.send_all(messages).subscribers.len() == bus.subscribers.len(),
    decreases messages.len(),
{
    if messages.len() != 0 {
        lemma_send_all_keeps_len(bus, messages.drop_last());
    }
}

/// Sending keeps the capacity, the subscribers and the bounds of the bus.
pub proof fn lemma_send_all_keeps_shape(bus: BusView, messages: Seq<MessageView>)
    requires
        bus.wf(),
    ensures
        bus.send_all(messages).capacity == bus.capacity,
        bus.send_all(messages).subscribers.len() == bus.subscribers.len(),
        bus.send_all(messages).wf(),
    decreases messages.len(),
{
    if messages.len() != 0 {
        lemma_send_all_keeps_shape(bus, messages.drop_last());
    }
}

/// Each at its own pace: what a subscriber holds after some sends depends on
/// what it held before them and on nothing that another subscriber did.
pub proof fn lemma_subscribers_are_independent(
    here: BusView,
    there: BusView,
    i: int,
    j: int,
    messages: Seq<MessageView>,
)
    requires
        here.capacity == there.capacity,
        0 <= i < here.subscribers.len(),
        0 <= j < there.subscribers.len(),
        here.subscribers[i] == there.subscribers[j],
    ensures
        here.send_all(messages).subscribers[i] == there.send_all(messages).subscribers[j],
    decreases messages.len(),
{
    if messages.len() != 0 {
        let earlier = messages.drop_last();
        lemma_subscribers_are_independent(here, there, i, j, earlier);
        lemma_send_all_keeps_capacity(here, earlier);
        lemma_send_all_keeps_capacity(there, earlier);
        lemma_send_all_keeps_len(here, earlier);
        lemma_send_all_keeps_len(there, earlier);
    }
}

/// Lossy overflow: when messages are sent and a subscriber reads none of
/// them, it keeps the oldest of them as far as it has room, in the order in
/// which they were sent, and counts the others as missed, up to the largest
/// 64-bit number. The sender is never held up: every send returns.
pub proof fn lemma_lossy_overflow(bus: BusView, id: int, messages: Seq<MessageView>)
    requires
        bus.wf(),
        0 <= id < bus.subscribers.len(),
    ensures
        ({
            let before = bus.subscribers[id];
            let after = bus.send_all(messages).subscribers[id];
            let kept = least(bus.capacity - before.queue.len(), messages.len() as int);
            &&& 0 <= kept <= messages.len()
            &&& after.queue == before.queue + queued(messages.take(kept), before.missed)
            &&& after.missed == least(
                (if kept == 0 {
                    before.missed as int
                } else {
                    0
                }) + messages.len() - kept,
                u64::MAX as int,
            )
        }),
    decreases messages.len(),
{
    let before = bus.subscribers[id];
    let room = bus.capacity - before.queue.len();
    let kept = least(room, messages.len() as int);
    if messages.len() == 0 {
        assert(before.queue + queued(messages.take(kept), before.missed) =~= before.queue);
    } else {
        let earlier = messages.drop_last();
        let newest = messages.last();
        let kept_earlier = least(room, earlier.len() as int);
        lemma_lossy_overflow(bus, id, earlier);
        lemma_send_all_keeps_shape(bus, earlier);
        let middle = bus.send_all(earlier).subscribers[id];
        let after = bus.send_all(messages).subscribers[id];
        assert(after == middle.accept(bus.capacity, newest));
        if middle.queue.len() < bus.capacity {
            assert(earlier.take(kept_earlier) =~= earlier);
            assert(messages.take(kept) =~= earlier.push(newest));
            assert(after.queue =~= before.queue + queued(messages.take(kept), before.missed));
        } else {
            assert(messages.take(kept) =~= earlier.take(kept_earlier));
        }
    }
}

} // verus!
