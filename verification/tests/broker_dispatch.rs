use kafkalite::broker::Broker;
use kafkalite::protocol::request::Request;
use kafkalite::protocol::response::Response;
use kafkalite::router::{route_broker_request, BrokerResponse};
use kafkalite::topic::{ClientId, Subscription};
use uuid::Uuid;

fn fresh_client_id() -> ClientId {
    let (hi, lo) = Uuid::new_v4().as_u64_pair();
    ClientId::new(hi, lo)
}

fn basic(broker: &mut Broker, request: Request) -> Response {
    match route_broker_request(request, broker) {
        BrokerResponse::BasicResponse(response) => response,
        BrokerResponse::StreamedResponse(_) => panic!("expected a basic response"),
    }
}

fn streamed(broker: &mut Broker, request: Request) -> Subscription {
    match route_broker_request(request, broker) {
        BrokerResponse::StreamedResponse(subscription) => subscription,
        BrokerResponse::BasicResponse(response) => {
            panic!("expected a subscription, got {:?}", response)
        },
    }
}

#[test]
fn ping_pong_test() {
    let mut broker = Broker::default();
    let response = basic(&mut broker, Request::Ping);
    assert_eq!(response, Response::Pong);
}

#[test]
fn broker_returns_ack_on_adding_new_topic_test() {
    let mut broker = Broker::default();

    let add_topic = Request::AddTopic {
        topic: "test-topic".to_string(),
        retention: 1,
    };
    let ack = basic(&mut broker, add_topic);
    assert_eq!(ack, Response::Ack);
}

#[test]
fn broker_returns_nack_on_adding_two_times_the_same_topic_test() {
    let mut broker = Broker::default();

    let add_topic = Request::AddTopic {
        topic: "test-topic".to_string(),
        retention: 1,
    };
    let ack = basic(&mut broker, add_topic);
    assert_eq!(ack, Response::Ack);

    let add_topic = Request::AddTopic {
        topic: "test-topic".to_string(),
        retention: 1,
    };
    let nack = basic(&mut broker, add_topic);
    assert_eq!(nack, Response::Nack);
}

#[test]
fn second_add_topic_does_not_change_the_existing_topic() {
    let mut broker = Broker::default();
    let ack = basic(
        &mut broker,
        Request::AddTopic {
            topic: "test-topic".to_string(),
            retention: 3,
        },
    );
    assert_eq!(ack, Response::Ack);

    let nack = basic(
        &mut broker,
        Request::AddTopic {
            topic: "test-topic".to_string(),
            retention: 1,
        },
    );
    assert_eq!(nack, Response::Nack);

    // The retention is still 3: five publishes retain three records.
    for n in 0..5u8 {
        let ack = basic(
            &mut broker,
            Request::Publish {
                topic: "test-topic".to_string(),
                payload: vec![n],
            },
        );
        assert_eq!(ack, Response::Ack);
    }
    let subscription = streamed(
        &mut broker,
        Request::Subscribe {
            topic: "test-topic".to_string(),
            client_id: fresh_client_id(),
            from_offset: Some(0),
        },
    );
    let offsets: Vec<u64> = subscription.replay.iter().map(|m| m.offset).collect();
    assert_eq!(offsets, vec![2, 3, 4]);
}

#[test]
fn return_error_if_topic_is_not_found() {
    let mut broker = Broker::default();

    let delete_topic = Request::DeleteTopic {
        topic: "test-topic".to_string(),
    };
    let response = basic(&mut broker, delete_topic);

    let expected_response = Response::Error {
        message: "Topic test-topic not found".to_string(),
    };
    assert_eq!(expected_response, response);
}

#[test]
fn delete_topic() {
    let mut broker = Broker::default();

    let add_topic = Request::AddTopic {
        topic: "test-topic".to_string(),
        retention: 1,
    };
    let ack = basic(&mut broker, add_topic);
    assert_eq!(Response::Ack, ack);

    let delete_topic = Request::DeleteTopic {
        topic: "test-topic".to_string(),
    };
    let ack = basic(&mut broker, delete_topic);
    assert_eq!(Response::Ack, ack);

    let expected_topics = Response::TopicsList { topics: vec![] };
    let topics = basic(&mut broker, Request::ListTopics);
    assert_eq!(expected_topics, topics);
}

#[test]
fn return_empty_list_of_topics() {
    let mut broker = Broker::default();
    let response = basic(&mut broker, Request::ListTopics);
    assert_list_of_topics(response, &[]);
}

#[test]
fn return_list_of_topics() {
    let mut broker = Broker::default();

    let add_topic_1 = Request::AddTopic {
        topic: "test-topic-1".to_string(),
        retention: 1,
    };
    let ack = basic(&mut broker, add_topic_1);
    assert_eq!(ack, Response::Ack);

    let add_topic_2 = Request::AddTopic {
        topic: "test-topic-2".to_string(),
        retention: 1,
    };
    let ack = basic(&mut broker, add_topic_2);
    assert_eq!(ack, Response::Ack);

    let expected_topics = vec!["test-topic-1".to_string(), "test-topic-2".to_string()];
    let response = basic(&mut broker, Request::ListTopics);
    assert_list_of_topics(response, &expected_topics);
}

fn assert_list_of_topics(response: Response, expected_topics: &[String]) {
    if let Response::TopicsList { mut topics } = response {
        topics.sort();
        assert_eq!(expected_topics, topics);
    } else {
        panic!("Received non TopicsList response: {:?}", response);
    }
}

#[test]
fn broker_returns_error_when_client_tries_to_publish_to_unknown_topic() {
    let mut broker = Broker::default();

    let publish = Request::Publish {
        topic: "test-topic".to_string(),
        payload: b"test message".to_vec(),
    };
    let ack = basic(&mut broker, publish);
    assert_eq!(
        ack,
        Response::Error {
            message: "Topic test-topic not found".to_string()
        }
    );
}

#[test]
fn broker_returns_error_when_client_tries_to_subscribe_to_unknown_topic() {
    let mut broker = Broker::default();

    let subscribe = Request::Subscribe {
        topic: "test-topic".to_string(),
        client_id: fresh_client_id(),
        from_offset: Some(0),
    };
    let response = basic(&mut broker, subscribe);
    assert_eq!(
        response,
        Response::Error {
            message: "Topic test-topic not found".to_string()
        }
    );
}

#[test]
fn broker_sends_messages_from_subscribed_topic_to_client_test() {
    let mut broker = Broker::default();

    let add_topic = Request::AddTopic {
        topic: "test-topic".to_string(),
        retention: 1,
    };
    let ack = basic(&mut broker, add_topic);
    assert_eq!(ack, Response::Ack);

    let mut subscription = streamed(
        &mut broker,
        Request::Subscribe {
            topic: "test-topic".to_string(),
            client_id: fresh_client_id(),
            from_offset: Some(0),
        },
    );
    assert!(subscription.replay.is_empty());

    for i in 0..5 {
        let publish = Request::Publish {
            topic: "test-topic".to_string(),
            payload: format!("test-payload-{}", i).into_bytes(),
        };
        let ack = basic(&mut broker, publish);
        assert_eq!(ack, Response::Ack);
    }

    for i in 0..5u64 {
        let record = subscription
            .receiver
            .blocking_recv()
            .expect("Failed to receive messages");
        assert_eq!(record.offset, i);
        assert_eq!(record.payload, format!("test-payload-{}", i).into_bytes());
    }
    assert!(subscription.receiver.try_recv().is_err());
}

#[test]
fn broker_replies_retained_messages_first_when_client_subscribes_to_topic() {
    let mut broker = Broker::default();

    let add_topic = Request::AddTopic {
        topic: "test-topic".to_string(),
        retention: 3,
    };
    let ack = basic(&mut broker, add_topic);
    assert_eq!(ack, Response::Ack);

    for n in 0..5u8 {
        let publish = Request::Publish {
            topic: "test-topic".to_string(),
            payload: vec![n],
        };
        let ack = basic(&mut broker, publish);
        assert_eq!(ack, Response::Ack);
    }

    let subscription = streamed(
        &mut broker,
        Request::Subscribe {
            topic: "test-topic".to_string(),
            client_id: fresh_client_id(),
            from_offset: Some(0),
        },
    );

    let expected: Vec<(u64, Vec<u8>)> = (2..5u64).map(|n| (n, vec![n as u8])).collect();
    let got: Vec<(u64, Vec<u8>)> = subscription
        .replay
        .iter()
        .map(|m| (m.offset, m.payload.clone()))
        .collect();
    assert_eq!(expected, got);
}

#[test]
fn broker_replies_retained_messages_from_given_offset_first_when_client_subscribes_to_topic() {
    let mut broker = Broker::default();

    let add_topic = Request::AddTopic {
        topic: "test-topic".to_string(),
        retention: 5,
    };
    let ack = basic(&mut broker, add_topic);
    assert_eq!(ack, Response::Ack);

    for n in 0..5u8 {
        let publish = Request::Publish {
            topic: "test-topic".to_string(),
            payload: vec![n],
        };
        let ack = basic(&mut broker, publish);
        assert_eq!(ack, Response::Ack);
    }

    let subscription = streamed(
        &mut broker,
        Request::Subscribe {
            topic: "test-topic".to_string(),
            client_id: fresh_client_id(),
            from_offset: Some(2),
        },
    );

    let expected: Vec<(u64, Vec<u8>)> = (2..5u64).map(|n| (n, vec![n as u8])).collect();
    let got: Vec<(u64, Vec<u8>)> = subscription
        .replay
        .iter()
        .map(|m| (m.offset, m.payload.clone()))
        .collect();
    assert_eq!(expected, got);
}

#[test]
fn broker_returns_error_when_client_tries_to_unsubscribe_from_not_existing_topic() {
    let mut broker = Broker::default();

    let unsubscribe = Request::Unsubscribe {
        topic: "test-topic".to_string(),
        client_id: fresh_client_id(),
    };
    let response = basic(&mut broker, unsubscribe);
    assert_eq!(
        response,
        Response::Error {
            message: "Topic test-topic not found".to_string()
        }
    );
}

#[test]
fn broker_unsubscribes_from_existing_topic() {
    let mut broker = Broker::default();
    let client_id = fresh_client_id();

    let add_topic = Request::AddTopic {
        topic: "test-topic".to_string(),
        retention: 1,
    };
    let response = basic(&mut broker, add_topic);
    assert_eq!(response, Response::Ack);

    let mut subscription = streamed(
        &mut broker,
        Request::Subscribe {
            topic: "test-topic".to_string(),
            client_id,
            from_offset: Some(0),
        },
    );

    let publish = Request::Publish {
        topic: "test-topic".to_string(),
        payload: b"test-1".to_vec(),
    };
    let response = basic(&mut broker, publish);
    assert_eq!(response, Response::Ack);

    let message = subscription.receiver.blocking_recv();
    assert!(message.is_some());

    let unsubscribe = Request::Unsubscribe {
        topic: "test-topic".to_string(),
        client_id,
    };
    let response = basic(&mut broker, unsubscribe);
    assert_eq!(response, Response::Ack);

    let publish = Request::Publish {
        topic: "test-topic".to_string(),
        payload: b"test-2".to_vec(),
    };
    let response = basic(&mut broker, publish);
    assert_eq!(response, Response::Ack);

    let no_messages_received = subscription.receiver.try_recv().is_err();
    assert!(no_messages_received);
}
