//! The shared broker state and the decisions taken over it.
//!
//! [`BrokerState`] is the composite of the FIFO message queue and the
//! consumer registry. Connection handlers mutate it once per frame
//! ([`handle_read`]); the distribution loop mutates it once per tick
//! ([`BrokerState::tick`]). The callers hold it under a lock and drive
//! the sockets; every decision about its contents is made here.
//!
//! The mathematical model is [`BrokerModel`]: the queue as a sequence
//! of payloads (front first) and the registry as a sequence of
//! (identity, handle) pairs with pairwise distinct identities.

use crate::codec::Decoded;
use crate::codec::MessageType;
use std::collections::VecDeque;
use vstd::pervasive::VecAdditionalExecFns;
use vstd::prelude::*;
use vstd::std_specs::cmp::PartialEqSpec;

verus! {

/// The model of the broker: queue contents in FIFO order (front first)
/// and registry entries in registration order.
pub ghost struct BrokerModel {
    /// The queued payloads, oldest first.
    pub queue: Seq<Seq<u8>>,
    /// The registered consumers: identity and delivery handle.
    pub consumers: Seq<(Seq<u8>, u64)>,
}

/// Registry well-formedness: no two entries share an identity.
pub open spec fn consumers_wf(cs: Seq<(Seq<u8>, u64)>) -> bool {
    forall|i: int, j: int| 0 <= i < j < cs.len() ==> cs[i].0 != cs[j].0
}

/// Whether some entry of `cs` carries the identity `id`.
pub open spec fn reg_contains(cs: Seq<(Seq<u8>, u64)>, id: Seq<u8>) -> bool {
    exists|k: int| 0 <= k < cs.len() && cs[k].0 == id
}

/// The index of the entry carrying `id` (meaningful when `reg_contains`
/// holds and identities are distinct).
pub open spec fn reg_index(cs: Seq<(Seq<u8>, u64)>, id: Seq<u8>) -> int {
    choose|k: int| 0 <= k < cs.len() && cs[k].0 == id
}

/// The delivery handles of all registered consumers, in registry order.
pub open spec fn handles_of(cs: Seq<(Seq<u8>, u64)>) -> Seq<u64> {
    cs.map_values(|p: (Seq<u8>, u64)| p.1)
}

/// Publishing appends the payload at the back of the queue.
pub open spec fn publish_model(b: BrokerModel, payload: Seq<u8>) -> BrokerModel {
    BrokerModel { queue: b.queue.push(payload), consumers: b.consumers }
}

/// Subscribing inserts (or overwrites, keyed by identity) one entry.
pub open spec fn register_model(cs: Seq<(Seq<u8>, u64)>, id: Seq<u8>, h: u64) -> Seq<
    (Seq<u8>, u64),
> {
    if reg_contains(cs, id) {
        cs.update(reg_index(cs, id), (id, h))
    } else {
        cs.push((id, h))
    }
}

/// Subscribing leaves the queue alone and updates the registry.
pub open spec fn subscribe_model(b: BrokerModel, id: Seq<u8>, h: u64) -> BrokerModel {
    BrokerModel { queue: b.queue, consumers: register_model(b.consumers, id, h) }
}

/// Keeps a registry entry whose handle differs from `h`.
pub open spec fn keep_pred(h: u64) -> spec_fn((Seq<u8>, u64)) -> bool {
    |p: (Seq<u8>, u64)| p.1 != h
}

/// Removing a consumer keeps exactly the entries with another handle.
pub open spec fn remove_handle_model(cs: Seq<(Seq<u8>, u64)>, h: u64) -> Seq<(Seq<u8>, u64)> {
    cs.filter(keep_pred(h))
}

/// One tick of the distribution loop: nothing happens while the queue
/// or the registry is empty; otherwise exactly the front message is
/// dequeued and handed to every registered consumer.
pub open spec fn tick_model(b: BrokerModel) -> (BrokerModel, Option<(Seq<u8>, Seq<u64>)>) {
    if b.queue.len() == 0 || b.consumers.len() == 0 {
        (b, None)
    } else {
        (
            BrokerModel { queue: b.queue.skip(1), consumers: b.consumers },
            Some((b.queue[0], handles_of(b.consumers))),
        )
    }
}

/// The fan-out of one tick: one (handle, payload) pair per registered
/// consumer, every pair carrying the same front-of-queue payload.
pub open spec fn tick_deliveries(b: BrokerModel) -> Seq<(u64, Seq<u8>)> {
    if b.queue.len() == 0 || b.consumers.len() == 0 {
        Seq::empty()
    } else {
        b.consumers.map_values(|p: (Seq<u8>, u64)| (p.1, b.queue[0]))
    }
}

/// What one read means for the broker and for the reading connection:
/// zero bytes closes the connection, a publish frame enqueues its
/// payload, a subscribe frame registers (identity, handle), and an
/// unknown opcode closes the connection; the broker changes only on
/// the two well-formed frames.
pub open spec fn read_model(b: BrokerModel, id: Seq<u8>, h: u64, buf: Seq<u8>) -> (
    BrokerModel,
    ReadOutcome,
) {
    if buf.len() == 0 {
        (b, ReadOutcome::Closed)
    } else if buf[0] == 0 {
        (publish_model(b, buf.skip(1)), ReadOutcome::Continue)
    } else if buf[0] == 1 {
        (subscribe_model(b, id, h), ReadOutcome::Subscribed)
    } else {
        (b, ReadOutcome::ProtocolError(buf[0]))
    }
}

/// What the connection handler should do after one read.
#[derive(Clone, Copy, Debug, PartialEq, Eq, Structural)]
pub enum ReadOutcome {
    /// A message was published: keep reading frames.
    Continue,
    /// The connection subscribed: the handler relinquishes the socket
    /// to the registry and its read loop ends.
    Subscribed,
    /// The peer disconnected: the handler ends, nothing was changed.
    Closed,
    /// The opcode is outside the protocol: close this connection only.
    ProtocolError(u8),
}

/// The protocol state of one connection, owned by its handler alone.
#[derive(Clone, Copy, Debug, PartialEq, Eq, Structural)]
pub enum ConnectionState {
    /// Reading frames; may publish repeatedly.
    Active,
    /// Terminal: the socket was handed to the registry.
    Subscribed,
    /// Terminal: the peer closed, or a protocol error closed it.
    Closed,
}

/// The successor state of a connection after one read outcome; the two
/// terminal states never change.
pub open spec fn next_state(cur: ConnectionState, out: ReadOutcome) -> ConnectionState {
    match cur {
        ConnectionState::Active => match out {
            ReadOutcome::Continue => ConnectionState::Active,
            ReadOutcome::Subscribed => ConnectionState::Subscribed,
            ReadOutcome::Closed => ConnectionState::Closed,
            ReadOutcome::ProtocolError(_) => ConnectionState::Closed,
        },
        _ => cur,
    }
}

impl ConnectionState {
    /// Whether the connection's handler has ended for good.
    pub open spec fn is_terminal(self) -> bool {
        self is Subscribed || self is Closed
    }

    /// Advances the connection state machine by one read outcome.
    pub fn next(self, out: &ReadOutcome) -> (n: ConnectionState)
        ensures
            n == next_state(self, *out),
    {
        match self {
            ConnectionState::Active => match out {
                ReadOutcome::Continue => ConnectionState::Active,
                ReadOutcome::Subscribed => ConnectionState::Subscribed,
                ReadOutcome::Closed => ConnectionState::Closed,
                ReadOutcome::ProtocolError(_) => ConnectionState::Closed,
            },
            _ => self,
        }
    }
}

/// One registry entry: the consumer's identity (derived from its remote
/// address) and the handle under which the caller keeps its socket.
pub struct Consumer {
    /// The registry key; unique across entries.
    pub identity: Vec<u8>,
    /// The caller's name for the consumer's socket.
    pub handle: u64,
}

/// The shared broker state: the FIFO queue and the consumer registry.
pub struct BrokerState {
    queue: VecDeque<Vec<u8>>,
    consumers: Vec<Consumer>,
}

impl View for BrokerState {
    type V = BrokerModel;

    closed spec fn view(&self) -> BrokerModel {
        BrokerModel {
            queue: self.queue@.map_values(|m: Vec<u8>| m@),
            consumers: self.consumers@.map_values(|c: Consumer| (c.identity@, c.handle)),
        }
    }
}

impl BrokerState {
    /// Well-formedness: no two registry entries share an identity.
    pub open spec fn wf(self) -> bool {
        consumers_wf(self@.consumers)
    }

    /// A broker with an empty queue and no consumers.
    pub fn new() -> (b: BrokerState)
        ensures
            b.wf(),
            b@.queue == Seq::<Seq<u8>>::empty(),
            b@.consumers == Seq::<(Seq<u8>, u64)>::empty(),
    {
        let b = BrokerState { queue: VecDeque::new(), consumers: Vec::new() };
        assert(b@.queue =~= Seq::<Seq<u8>>::empty());
        assert(b@.consumers =~= Seq::<(Seq<u8>, u64)>::empty());
        b
    }

    /// Appends a published payload at the back of the queue.
    pub fn enqueue(&mut self, payload: Vec<u8>)
        requires
            old(self).wf(),
        ensures
            final(self).wf(),
            final(self)@ == publish_model(old(self)@, payload@),
    {
        let ghost prev = self.queue@;
        self.queue.push_back(payload);
        assert(self.queue@.map_values(|m: Vec<u8>| m@) =~= prev.map_values(|m: Vec<u8>| m@).push(
            payload@,
        ));
    }

    /// Removes and returns the front of the queue, or `None` if empty.
    pub fn dequeue_one(&mut self) -> (r: Option<Vec<u8>>)
        requires
            old(self).wf(),
        ensures
            final(self).wf(),
            final(self)@.consumers == old(self)@.consumers,
            (r matches Some(m) ==> {
                &&& old(self)@.queue.len() > 0
                &&& m@ == old(self)@.queue[0]
                &&& final(self)@.queue == old(self)@.queue.skip(1)
            }),
            r is None ==> old(self)@.queue.len() == 0 && final(self)@.queue == old(self)@.queue,
    {
        let ghost prev = self.queue@;
        let r = self.queue.pop_front();
        match r {
            Some(m) => {
                assert(self.queue@.map_values(|m: Vec<u8>| m@) =~= prev.map_values(
                    |m: Vec<u8>| m@,
                ).skip(1));
                Some(m)
            },
            None => None,
        }
    }

    /// Inserts a consumer, overwriting any entry with the same identity.
    pub fn register_consumer(&mut self, identity: Vec<u8>, handle: u64)
        requires
            old(self).wf(),
        ensures
            final(self).wf(),
            final(self)@ == subscribe_model(old(self)@, identity@, handle),
    {
        let ghost cs = self@.consumers;
        let ghost id = identity@;
        let mut i: usize = 0;
        while i < self.consumers.len()
            invariant
                i <= cs.len(),
                cs.len() == self.consumers.len(),
                cs == old(self)@.consumers,
                self@.consumers == cs,
                self@.queue == old(self)@.queue,
                consumers_wf(cs),
                id == identity@,
                forall|k: int| 0 <= k < i ==> cs[k].0 != id,
            decreases cs.len() - i,
        {
            if self.consumers[i].identity == identity {
                proof {
                    assert(self.consumers@[i as int].identity@ =~= id);
                    assert(cs[i as int].0 == id);
                    assert(reg_contains(cs, id));
                    let k = reg_index(cs, id);
                    assert(0 <= k < cs.len() && cs[k].0 == id);
                    if k != i {
                        assert(cs[k].0 == cs[i as int].0);
                        assert(false);
                    }
                }
                proof {
                    assert(reg_index(cs, id) == i);
                    assert(register_model(cs, id, handle) == cs.update(i as int, (id, handle)));
                }
                self.consumers.set(i, Consumer { identity, handle });
                assert(self@.consumers =~= cs.update(i as int, (id, handle)));
                return ;
            } else {
                proof {
                    if cs[i as int].0 == id {
                        assert(self.consumers@[i as int].identity@ == identity@);
                        assert(self.consumers@[i as int].identity.eq_spec(&identity));
                        assert(false);
                    }
                }
            }
            i = i + 1;
        }
        proof {
            if reg_contains(cs, id) {
                let k = reg_index(cs, id);
                assert(0 <= k < cs.len() && cs[k].0 == id);
                assert(false);
            }
        }
        assert(register_model(cs, id, handle) == cs.push((id, handle)));
        self.consumers.push(Consumer { identity, handle });
        assert(self@.consumers =~= cs.push((id, handle)));
        assert(self@.queue == old(self)@.queue);
    }

    /// Drops every registry entry delivering through `handle`; callers
    /// use it to forget a consumer whose socket failed.
    pub fn remove_consumer(&mut self, handle: u64)
        requires
            old(self).wf(),
        ensures
            final(self).wf(),
            final(self)@.queue == old(self)@.queue,
            final(self)@.consumers == remove_handle_model(old(self)@.consumers, handle),
    {
        let ghost cs = self@.consumers;
        let ghost pred = keep_pred(handle);
        let mut kept: Vec<Consumer> = Vec::new();
        let mut rest: Vec<Consumer> = Vec::new();
        core::mem::swap(&mut rest, &mut self.consumers);
        proof {
            assert(rest@.map_values(|c: Consumer| (c.identity@, c.handle)) =~= cs.skip(0));
            assert(cs.take(0) =~= Seq::<(Seq<u8>, u64)>::empty());
            reveal(Seq::filter);
            assert(kept@.map_values(|c: Consumer| (c.identity@, c.handle)) =~= cs.take(0).filter(
                pred,
            ));
        }
        let ghost total = cs.len() as int;
        while rest.len() > 0
            invariant
                total == cs.len(),
                rest@.len() <= total,
                pred == keep_pred(handle),
                rest@.map_values(|c: Consumer| (c.identity@, c.handle)) == cs.skip(
                    total - rest@.len(),
                ),
                kept@.map_values(|c: Consumer| (c.identity@, c.handle)) == cs.take(
                    total - rest@.len(),
                ).filter(pred),
            decreases rest@.len(),
        {
            let ghost j = total - rest@.len();
            let ghost r0 = rest@;
            let ghost rv = rest@.map_values(|c: Consumer| (c.identity@, c.handle));
            let c = rest.remove(0);
            proof {
                assert(rv[0] == cs.skip(j)[0]);
                assert(cs.skip(j)[0] == cs[j]);
                assert((c.identity@, c.handle) == cs[j]);
                assert(rest@ =~= r0.skip(1));
                assert(rest@.map_values(|c: Consumer| (c.identity@, c.handle)) =~= rv.skip(1));
                assert(rv.skip(1) =~= cs.skip(j + 1));
                cs.take(j).lemma_filter_push(cs[j], pred);
                assert(cs.take(j).push(cs[j]) =~= cs.take(j + 1));
            }
            if c.handle != handle {
                proof {
                    assert(pred(cs[j]));
                }
                let ghost kv = kept@.map_values(|c: Consumer| (c.identity@, c.handle));
                kept.push(c);
                assert(kept@.map_values(|c: Consumer| (c.identity@, c.handle)) =~= kv.push(cs[j]));
            } else {
                proof {
                    assert(!pred(cs[j]));
                }
            }
        }
        core::mem::swap(&mut kept, &mut self.consumers);
        proof {
            assert(cs.take(total) =~= cs);
            lemma_filter_keeps_unique(cs, pred);
        }
    }

    /// The number of queued messages.
    pub fn queue_len(&self) -> (n: usize)
        ensures
            n == self@.queue.len(),
    {
        self.queue.len()
    }

    /// The number of registered consumers.
    pub fn consumer_count(&self) -> (n: usize)
        ensures
            n == self@.consumers.len(),
    {
        self.consumers.len()
    }

    /// A copy of every registry entry, in registry order: what the
    /// distribution loop fans out over.
    pub fn snapshot_consumers(&self) -> (r: Vec<(Vec<u8>, u64)>)
        ensures
            r@.len() == self@.consumers.len(),
            forall|k: int|
                0 <= k < r@.len() ==> (#[trigger] r@[k].0@, r@[k].1) == self@.consumers[k],
    {
        let ghost cs = self@.consumers;
        let mut out: Vec<(Vec<u8>, u64)> = Vec::new();
        let mut i: usize = 0;
        while i < self.consumers.len()
            invariant
                i <= cs.len(),
                cs.len() == self.consumers.len(),
                self@.consumers == cs,
                out@.len() == i,
                forall|k: int| 0 <= k < i ==> (#[trigger] out@[k].0@, out@[k].1) == cs[k],
            decreases cs.len() - i,
        {
            let id = self.consumers[i].identity.clone();
            assert(id@ =~= self.consumers@[i as int].identity@);
            out.push((id, self.consumers[i].handle));
            i = i + 1;
        }
        out
    }

    /// One tick of the distribution loop: dequeues at most one message
    /// and names every consumer it must be written to. Skips the tick
    /// (dequeuing nothing) while the queue or the registry is empty.
    pub fn tick(&mut self) -> (r: Option<(Vec<u8>, Vec<u64>)>)
        requires
            old(self).wf(),
        ensures
            final(self).wf(),
            final(self)@ == tick_model(old(self)@).0,
            r is Some <==> tick_model(old(self)@).1 is Some,
            (r matches Some((message, targets)) ==> tick_model(old(self)@).1 == Some(
                (message@, targets@),
            )),
    {
        if self.queue.len() == 0 {
            return None;
        }
        if self.consumers.len() == 0 {
            return None;
        }
        let front = self.dequeue_one();
        let message = front.unwrap();
        let ghost cs = self@.consumers;
        let mut targets: Vec<u64> = Vec::new();
        let mut i: usize = 0;
        assert(targets@ =~= handles_of(cs).take(0));
        while i < self.consumers.len()
            invariant
                i <= cs.len(),
                cs.len() == self.consumers.len(),
                self@.consumers == cs,
                targets@ == handles_of(cs).take(i as int),
            decreases cs.len() - i,
        {
            targets.push(self.consumers[i].handle);
            assert(targets@ =~= handles_of(cs).take(i as int + 1));
            i = i + 1;
        }
        assert(targets@ =~= handles_of(cs));
        Some((message, targets))
    }
}

/// Filtering the registry never makes two identities collide.
proof fn lemma_filter_keeps_unique(cs: Seq<(Seq<u8>, u64)>, pred: spec_fn((Seq<u8>, u64)) -> bool)
    requires
        consumers_wf(cs),
    ensures
        consumers_wf(cs.filter(pred)),
    decreases cs.len(),
{
    reveal(Seq::filter);
    if cs.len() > 0 {
        let t = cs.drop_last();
        assert forall|i: int, j: int| 0 <= i < j < t.len() implies t[i].0 != t[j].0 by {
            assert(t[i] == cs[i]);
            assert(t[j] == cs[j]);
        }
        lemma_filter_keeps_unique(t, pred);
        let tf = t.filter(pred);
        let f = cs.filter(pred);
        if pred(cs.last()) {
            assert(f == tf.push(cs.last()));
            assert forall|i: int, j: int| 0 <= i < j < f.len() implies f[i].0 != f[j].0 by {
                if j < f.len() - 1 {
                    assert(f[i] == tf[i]);
                    assert(f[j] == tf[j]);
                } else {
                    assert(f[j] == cs.last());
                    assert(f[i] == tf[i]);
                    assert(tf.contains(tf[i]));
                    t.lemma_filter_contains_rev(pred, tf[i]);
                    let k = choose|k: int| 0 <= k < t.len() && t[k] == tf[i];
                    assert(cs[k] == tf[i]);
                    assert(cs[k].0 != cs.last().0);
                }
            }
        } else {
            assert(f == tf);
        }
    }
}

/// Applies one read from a connection to the broker: a publish frame
/// enqueues its payload, a subscribe frame registers (identity, handle),
/// a zero-length read and an unknown opcode change nothing.
pub fn handle_read(broker: &mut BrokerState, identity: Vec<u8>, handle: u64, buf: &[u8]) -> (out:
    ReadOutcome)
    requires
        old(broker).wf(),
    ensures
        final(broker).wf(),
        final(broker)@ == read_model(old(broker)@, identity@, handle, buf@).0,
        out == read_model(old(broker)@, identity@, handle, buf@).1,
{
    match crate::codec::decode(buf) {
        Decoded::Disconnect => ReadOutcome::Closed,
        Decoded::Frame(MessageType::Publish, payload) => {
            broker.enqueue(payload);
            ReadOutcome::Continue
        },
        Decoded::Frame(MessageType::Subscribe, _payload) => {
            broker.register_consumer(identity, handle);
            ReadOutcome::Subscribed
        },
        Decoded::UnknownOpcode(byte) => ReadOutcome::ProtocolError(byte),
    }
}

} // verus!
