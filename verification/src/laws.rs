//! The broker's laws, proved once for every state, message sequence
//! and tick count over the model of [`crate::broker`].

use crate::broker::BrokerModel;
use crate::broker::ReadOutcome;
use crate::broker::consumers_wf;
use crate::broker::handles_of;
use crate::broker::publish_model;
use crate::broker::read_model;
use crate::broker::subscribe_model;
use crate::broker::tick_deliveries;
use crate::broker::tick_model;
use vstd::prelude::*;

verus! {

/// The broker state after one connection handler consumed `frames`,
/// one read at a time, oldest first.
pub open spec fn reads_state(b: BrokerModel, id: Seq<u8>, h: u64, frames: Seq<Seq<u8>>) -> BrokerModel
    decreases frames.len(),
{
    if frames.len() == 0 {
        b
    } else {
        reads_state(read_model(b, id, h, frames[0]).0, id, h, frames.skip(1))
    }
}

/// A publish frame: the publish opcode, then the payload.
pub open spec fn is_publish_frame(f: Seq<u8>) -> bool {
    f.len() > 0 && f[0] == 0
}

/// The payloads carried by a sequence of frames.
pub open spec fn payloads_of(frames: Seq<Seq<u8>>) -> Seq<Seq<u8>> {
    frames.map_values(|f: Seq<u8>| f.skip(1))
}

/// The broker state after one tick of the distribution loop.
pub open spec fn tick_state(b: BrokerModel) -> BrokerModel {
    tick_model(b).0
}

/// The broker state after `k` ticks of the distribution loop.
pub open spec fn ticks(b: BrokerModel, k: nat) -> BrokerModel
    decreases k,
{
    if k == 0 {
        b
    } else {
        ticks(tick_state(b), (k - 1) as nat)
    }
}

/// FIFO within a connection: a connection that sends any sequence of
/// publish frames has their payloads enqueued behind the existing
/// queue, in exactly the order sent, and touches no registry entry.
pub proof fn lemma_fifo_within_connection(
    b: BrokerModel,
    id: Seq<u8>,
    h: u64,
    frames: Seq<Seq<u8>>,
)
    requires
        forall|i: int| 0 <= i < frames.len() ==> is_publish_frame(#[trigger] frames[i]),
    ensures
        reads_state(b, id, h, frames).queue == b.queue + payloads_of(frames),
        reads_state(b, id, h, frames).consumers == b.consumers,
    decreases frames.len(),
{
    if frames.len() == 0 {
        assert(b.queue + payloads_of(frames) =~= b.queue);
    } else {
        assert(is_publish_frame(frames[0]));
        let b1 = read_model(b, id, h, frames[0]).0;
        assert(b1 == publish_model(b, frames[0].skip(1)));
        assert forall|i: int|
            0 <= i < frames.skip(1).len() implies is_publish_frame(
            #[trigger] frames.skip(1)[i],
        ) by {
            assert(frames.skip(1)[i] == frames[i + 1]);
        }
        lemma_fifo_within_connection(b1, id, h, frames.skip(1));
        assert(payloads_of(frames.skip(1)) =~= payloads_of(frames).skip(1));
        assert(b.queue.push(frames[0].skip(1)) + payloads_of(frames).skip(1) =~= b.queue
            + payloads_of(frames));
    }
}

/// At most one message per tick: a window of `k` ticks dequeues at most
/// `k` messages, however many were published and however many consumers
/// are registered; what remains is a suffix of the queue, so nothing is
/// reordered or duplicated, and the registry is untouched.
pub proof fn lemma_at_most_k_per_window(b: BrokerModel, k: nat)
    ensures
        ticks(b, k).consumers == b.consumers,
        exists|d: int|
            0 <= d <= k && d <= b.queue.len() && ticks(b, k).queue == #[trigger] b.queue.skip(d),
        b.queue.len() - ticks(b, k).queue.len() <= k,
    decreases k,
{
    if k == 0 {
        assert(ticks(b, k).queue == b.queue.skip(0)) by {
            assert(b.queue.skip(0) =~= b.queue);
        }
    } else {
        let b1 = tick_state(b);
        lemma_at_most_k_per_window(b1, (k - 1) as nat);
        let d1 = choose|d: int|
            0 <= d <= (k - 1) as nat && d <= b1.queue.len() && ticks(b1, (k - 1) as nat).queue
                == #[trigger] b1.queue.skip(d);
        assert(ticks(b, k) == ticks(b1, (k - 1) as nat));
        if b.queue.len() == 0 || b.consumers.len() == 0 {
            assert(b1 == b);
            assert(ticks(b, k).queue == b.queue.skip(d1));
        } else {
            assert(b1.queue == b.queue.skip(1));
            assert(b1.queue.skip(d1) =~= b.queue.skip(d1 + 1));
            assert(ticks(b, k).queue == b.queue.skip(d1 + 1));
        }
    }
}

/// One thing that can happen to the broker inside a time window.
pub ghost enum BrokerEvent {
    /// A connection publishes a payload.
    Publish(Seq<u8>),
    /// A connection subscribes under an identity and a handle.
    Subscribe(Seq<u8>, u64),
    /// The distribution loop's timer fires.
    Tick,
}

/// The broker state after one event.
pub open spec fn apply_event(b: BrokerModel, e: BrokerEvent) -> BrokerModel {
    match e {
        BrokerEvent::Publish(p) => publish_model(b, p),
        BrokerEvent::Subscribe(id, h) => subscribe_model(b, id, h),
        BrokerEvent::Tick => tick_state(b),
    }
}

/// The broker state after a window of events, oldest first.
pub open spec fn run_events(b: BrokerModel, events: Seq<BrokerEvent>) -> BrokerModel
    decreases events.len(),
{
    if events.len() == 0 {
        b
    } else {
        run_events(apply_event(b, events[0]), events.skip(1))
    }
}

/// How many ticks a window holds.
pub open spec fn count_ticks(events: Seq<BrokerEvent>) -> nat
    decreases events.len(),
{
    if events.len() == 0 {
        0
    } else {
        (if events[0] is Tick {
            1nat
        } else {
            0nat
        }) + count_ticks(events.skip(1))
    }
}

/// How many publishes a window holds.
pub open spec fn count_published(events: Seq<BrokerEvent>) -> nat
    decreases events.len(),
{
    if events.len() == 0 {
        0
    } else {
        (if events[0] is Publish {
            1nat
        } else {
            0nat
        }) + count_published(events.skip(1))
    }
}

/// At most one message per tick, under any interleaving: over a window
/// holding `count_ticks` ticks, however many publishes and subscribes
/// stand between them, the broker dequeues at most `count_ticks`
/// messages (what entered the queue minus what remains), and never
/// more than entered.
pub proof fn lemma_window_dequeues_at_most_ticks(b: BrokerModel, events: Seq<BrokerEvent>)
    ensures
        run_events(b, events).queue.len() + count_ticks(events) >= b.queue.len()
            + count_published(events),
        run_events(b, events).queue.len() <= b.queue.len() + count_published(events),
    decreases events.len(),
{
    if events.len() > 0 {
        let b1 = apply_event(b, events[0]);
        lemma_window_dequeues_at_most_ticks(b1, events.skip(1));
    }
}

/// No-consumer stall: if no consumer is registered when a tick fires,
/// nothing is dequeued and nothing is delivered; the queue after the
/// tick is the queue before it, length and contents alike.
pub proof fn lemma_no_consumer_stall(b: BrokerModel)
    requires
        b.consumers.len() == 0,
    ensures
        tick_state(b).queue == b.queue,
        tick_state(b).queue.len() == b.queue.len(),
        tick_model(b).1 is None,
{
}

/// Broadcast fidelity: when a tick distributes while `M` consumers are
/// registered, the fan-out holds exactly `M` deliveries, one per
/// registered consumer in registry order, and every delivery carries
/// the same payload: the front of the queue, byte for byte.
pub proof fn lemma_broadcast_fidelity(b: BrokerModel)
    requires
        b.queue.len() > 0,
        b.consumers.len() > 0,
    ensures
        tick_deliveries(b).len() == b.consumers.len(),
        forall|i: int|
            0 <= i < b.consumers.len() ==> #[trigger] tick_deliveries(b)[i] == (
                b.consumers[i].1,
                b.queue[0],
            ),
        forall|i: int, j: int|
            0 <= i < tick_deliveries(b).len() && 0 <= j < tick_deliveries(b).len()
                ==> #[trigger] tick_deliveries(b)[i].1 == #[trigger] tick_deliveries(b)[j].1,
        tick_model(b).1 == Some((b.queue[0], handles_of(b.consumers))),
{
}

/// Disconnect safety: a zero-length read (a peer disconnecting) leaves
/// the queue and the registry exactly as they were, keeps the registry
/// well-formed, and ends only the reading connection.
pub proof fn lemma_disconnect_safety(b: BrokerModel, id: Seq<u8>, h: u64)
    ensures
        read_model(b, id, h, Seq::empty()).0 == b,
        read_model(b, id, h, Seq::empty()).1 == ReadOutcome::Closed,
        consumers_wf(b.consumers) ==> consumers_wf(read_model(b, id, h, Seq::empty()).0.consumers),
{
}

} // verus!
