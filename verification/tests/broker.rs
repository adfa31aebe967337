use vote_broker::broker::BrokerState;
use vote_broker::broker::ConnectionState;
use vote_broker::broker::ReadOutcome;
use vote_broker::broker::handle_read;
use vote_broker::codec::MessageType;
use vote_broker::codec::encode;

fn publish_frame(payload: &[u8]) -> Vec<u8> {
    encode(MessageType::Publish, payload)
}

fn subscribe_frame() -> Vec<u8> {
    encode(MessageType::Subscribe, b"")
}

#[test]
fn publish_then_subscribe_delivers_exactly_once() {
    let payload = br#"{"voter_id":"a","votee_id":"b"}"#.to_vec();
    let mut broker = BrokerState::new();

    let out = handle_read(&mut broker, b"producer".to_vec(), 1, &publish_frame(&payload));
    assert_eq!(out, ReadOutcome::Continue);
    assert_eq!(broker.queue_len(), 1);

    let out = handle_read(&mut broker, b"consumer".to_vec(), 2, &subscribe_frame());
    assert_eq!(out, ReadOutcome::Subscribed);
    assert_eq!(broker.consumer_count(), 1);

    let (message, targets) = broker.tick().expect("a message must be distributed");
    assert_eq!(message, payload);
    assert_eq!(targets, vec![2]);
    assert_eq!(broker.queue_len(), 0);
    assert!(broker.tick().is_none());
}

#[test]
fn one_message_reaches_both_consumers() {
    let mut broker = BrokerState::new();
    handle_read(&mut broker, b"c1".to_vec(), 11, &subscribe_frame());
    handle_read(&mut broker, b"c2".to_vec(), 22, &subscribe_frame());
    handle_read(&mut broker, b"p".to_vec(), 1, &publish_frame(b"ballot"));

    let (message, targets) = broker.tick().expect("a message must be distributed");
    assert_eq!(message, b"ballot".to_vec());
    assert_eq!(targets, vec![11, 22]);
    assert!(broker.tick().is_none());
}

#[test]
fn backlog_drains_in_order_one_message_per_tick() {
    let mut broker = BrokerState::new();
    handle_read(&mut broker, b"p".to_vec(), 1, &publish_frame(b"first"));
    handle_read(&mut broker, b"p".to_vec(), 1, &publish_frame(b"second"));
    handle_read(&mut broker, b"p".to_vec(), 1, &publish_frame(b"third"));

    assert!(broker.tick().is_none(), "no consumer: the tick must dequeue nothing");
    assert_eq!(broker.queue_len(), 3);

    handle_read(&mut broker, b"c".to_vec(), 7, &subscribe_frame());

    let mut received: Vec<Vec<u8>> = Vec::new();
    for _ in 0..3 {
        let (message, targets) = broker.tick().expect("one message per tick");
        assert_eq!(targets, vec![7]);
        received.push(message);
    }
    assert_eq!(
        received,
        vec![b"first".to_vec(), b"second".to_vec(), b"third".to_vec()]
    );
    assert_eq!(broker.queue_len(), 0);
    assert!(broker.tick().is_none());
}

#[test]
fn enqueue_and_dequeue_are_fifo() {
    let mut broker = BrokerState::new();
    broker.enqueue(b"a".to_vec());
    broker.enqueue(b"b".to_vec());
    broker.enqueue(b"c".to_vec());
    assert_eq!(broker.dequeue_one(), Some(b"a".to_vec()));
    assert_eq!(broker.dequeue_one(), Some(b"b".to_vec()));
    assert_eq!(broker.dequeue_one(), Some(b"c".to_vec()));
    assert_eq!(broker.dequeue_one(), None);
}

#[test]
fn subscribing_twice_with_one_identity_overwrites() {
    let mut broker = BrokerState::new();
    broker.register_consumer(b"addr".to_vec(), 1);
    broker.register_consumer(b"addr".to_vec(), 2);
    assert_eq!(broker.consumer_count(), 1);

    broker.enqueue(b"m".to_vec());
    let (_, targets) = broker.tick().expect("a message must be distributed");
    assert_eq!(targets, vec![2]);
}

#[test]
fn removing_a_failed_consumer_spares_the_rest() {
    let mut broker = BrokerState::new();
    broker.register_consumer(b"c1".to_vec(), 11);
    broker.register_consumer(b"c2".to_vec(), 22);
    broker.remove_consumer(11);
    assert_eq!(broker.consumer_count(), 1);

    broker.enqueue(b"m".to_vec());
    let (_, targets) = broker.tick().expect("a message must be distributed");
    assert_eq!(targets, vec![22]);
}

#[test]
fn snapshot_lists_every_consumer_in_order() {
    let mut broker = BrokerState::new();
    broker.register_consumer(b"c1".to_vec(), 11);
    broker.register_consumer(b"c2".to_vec(), 22);
    let snapshot = broker.snapshot_consumers();
    assert_eq!(snapshot, vec![(b"c1".to_vec(), 11), (b"c2".to_vec(), 22)]);
}

#[test]
fn disconnect_changes_nothing() {
    let mut broker = BrokerState::new();
    handle_read(&mut broker, b"p".to_vec(), 1, &publish_frame(b"m"));
    handle_read(&mut broker, b"c".to_vec(), 2, &subscribe_frame());

    let out = handle_read(&mut broker, b"gone".to_vec(), 3, &[]);
    assert_eq!(out, ReadOutcome::Closed);
    assert_eq!(broker.queue_len(), 1);
    assert_eq!(broker.consumer_count(), 1);
}

#[test]
fn unknown_opcode_closes_only_that_connection() {
    let mut broker = BrokerState::new();
    handle_read(&mut broker, b"p".to_vec(), 1, &publish_frame(b"m"));

    let out = handle_read(&mut broker, b"bad".to_vec(), 2, &[9, 0, 0]);
    assert_eq!(out, ReadOutcome::ProtocolError(9));
    assert_eq!(broker.queue_len(), 1);
    assert_eq!(broker.consumer_count(), 0);
}

#[test]
fn connection_state_machine_has_two_terminal_states() {
    let active = ConnectionState::Active;
    assert_eq!(active.next(&ReadOutcome::Continue), ConnectionState::Active);
    assert_eq!(active.next(&ReadOutcome::Subscribed), ConnectionState::Subscribed);
    assert_eq!(active.next(&ReadOutcome::Closed), ConnectionState::Closed);
    assert_eq!(active.next(&ReadOutcome::ProtocolError(9)), ConnectionState::Closed);

    let subscribed = ConnectionState::Subscribed;
    assert_eq!(subscribed.next(&ReadOutcome::Continue), ConnectionState::Subscribed);
    let closed = ConnectionState::Closed;
    assert_eq!(closed.next(&ReadOutcome::Continue), ConnectionState::Closed);
}
