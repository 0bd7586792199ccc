use kafkalite::topic::{ClientId, Topic};
use uuid::Uuid;

fn fresh_client_id() -> ClientId {
    let (hi, lo) = Uuid::new_v4().as_u64_pair();
    ClientId::new(hi, lo)
}

#[test]
fn publishing_new_messages_into_topic_increases_its_offset() {
    let mut topic = Topic::new("topic-1", 5);
    assert_eq!(topic.next_offset(), 0);

    topic.publish(b"test-message-1".to_vec());
    assert_eq!(topic.next_offset(), 1);
    topic.publish(b"test-message-2".to_vec());
    assert_eq!(topic.next_offset(), 2);
    topic.publish(b"test-message-3".to_vec());
    assert_eq!(topic.next_offset(), 3);

    let offsets = topic
        .retained_records()
        .iter()
        .map(|m| m.offset)
        .collect::<Vec<_>>();
    assert_eq!(offsets, vec![0, 1, 2]);
}

#[test]
fn publishing_drops_old_messages_based_on_retention() {
    let mut topic = Topic::new("topic-1", 3);

    topic.publish(vec![1]);
    topic.publish(vec![2]);
    topic.publish(vec![3]);
    topic.publish(vec![4]);
    topic.publish(vec![5]);

    let retained = topic.retained_records();
    let messages: Vec<u8> = retained.iter().map(|m| m.payload[0]).collect();
    assert_eq!(messages, vec![3, 4, 5]);
    assert_eq!(retained.len(), 3);
    assert_eq!(topic.next_offset(), 5);
    assert_eq!(topic.retention(), 3);
}

#[test]
fn replies_retained_messages_when_new_client_subscribe_to_topic() {
    let mut topic = Topic::new("topic-1", 3);

    topic.publish(vec![1]);
    topic.publish(vec![2]);

    let subscription = topic.subscribe(fresh_client_id(), None);

    let payloads: Vec<u8> = subscription.replay.iter().map(|m| m.payload[0]).collect();
    assert_eq!(payloads, vec![1, 2]);
}

#[test]
fn subscriber_receives_live_records_in_offset_order() {
    let mut topic = Topic::new("topic-1", 1);
    let mut subscription = topic.subscribe(fresh_client_id(), Some(0));
    assert!(subscription.replay.is_empty());

    for n in 0..5u8 {
        topic.publish(vec![n]);
    }

    for n in 0..5u64 {
        let record = subscription
            .receiver
            .blocking_recv()
            .expect("Expected a live record");
        assert_eq!(record.offset, n);
        assert_eq!(record.payload, vec![n as u8]);
    }
    assert!(subscription.receiver.try_recv().is_err());
}

#[test]
fn retention_zero_fans_out_live_but_replays_nothing() {
    let mut topic = Topic::new("topic-1", 0);
    let mut live = topic.subscribe(fresh_client_id(), Some(0));

    topic.publish(b"only-live".to_vec());

    let record = live
        .receiver
        .blocking_recv()
        .expect("Expected the live record");
    assert_eq!(record.offset, 0);
    assert_eq!(record.payload, b"only-live".to_vec());

    let late = topic.subscribe(fresh_client_id(), Some(0));
    assert!(late.replay.is_empty());
    assert!(topic.retained_records().is_empty());
}

#[test]
fn subscribe_without_offset_replays_like_offset_zero() {
    let mut topic = Topic::new("topic-1", 10);
    for n in 0..4u8 {
        topic.publish(vec![n]);
    }

    let with_none = topic.subscribe(fresh_client_id(), None);
    let with_zero = topic.subscribe(fresh_client_id(), Some(0));

    let none_payloads: Vec<u8> = with_none.replay.iter().map(|m| m.payload[0]).collect();
    let zero_payloads: Vec<u8> = with_zero.replay.iter().map(|m| m.payload[0]).collect();
    assert_eq!(none_payloads, zero_payloads);
    assert_eq!(none_payloads, vec![0, 1, 2, 3]);
}

#[test]
fn subscribe_from_offset_beyond_window_replays_remainder() {
    let mut topic = Topic::new("topic-1", 2);
    for n in 0..5u8 {
        topic.publish(vec![n]);
    }

    let low = topic.subscribe(fresh_client_id(), Some(0));
    let offsets: Vec<u64> = low.replay.iter().map(|m| m.offset).collect();
    assert_eq!(offsets, vec![3, 4]);

    let high = topic.subscribe(fresh_client_id(), Some(100));
    assert!(high.replay.is_empty());
}

#[test]
fn unsubscribed_client_gets_no_further_records() {
    let mut topic = Topic::new("topic-1", 1);
    let client_id = fresh_client_id();
    let mut subscription = topic.subscribe(client_id, Some(0));

    topic.publish(b"before".to_vec());
    let record = subscription.receiver.blocking_recv().expect("Expected a record");
    assert_eq!(record.payload, b"before".to_vec());

    topic.unsubscribe(client_id);
    topic.publish(b"after".to_vec());
    topic.publish(b"after-2".to_vec());

    assert!(subscription.receiver.try_recv().is_err());
}

#[test]
fn resubscribing_replaces_the_previous_queue() {
    let mut topic = Topic::new("topic-1", 2);
    let client_id = fresh_client_id();
    let mut first = topic.subscribe(client_id, Some(0));
    let mut second = topic.subscribe(client_id, Some(0));

    topic.publish(b"live".to_vec());

    assert!(first.receiver.try_recv().is_err(), "replaced queue must stay silent");
    let record = second
        .receiver
        .blocking_recv()
        .expect("Expected the record on the new queue");
    assert_eq!(record.payload, b"live".to_vec());
    assert_eq!(topic.list_live_subscribers(), 1);
}
