use kafkalite::protocol::request::{Request, RequestCodec};
use kafkalite::topic::ClientId;
use uuid::Uuid;

const PING_TYPE: u8 = 0x01;
const ADD_TOPIC_TYPE: u8 = 0x03;
const LIST_TOPICS_TYPE: u8 = 0x05;
const DELETE_TOPIC_TYPE: u8 = 0x07;
const PUBLISH_TYPE: u8 = 0x09;
const SUBSCRIBE_TYPE: u8 = 0x11;
const UNSUBSCRIBE_TYPE: u8 = 0x13;

fn client_id_of(uuid: Uuid) -> ClientId {
    let (hi, lo) = uuid.as_u64_pair();
    ClientId::new(hi, lo)
}

fn decode_request_test(bytes: &mut Vec<u8>, expected_request: Request) {
    let mut codec = RequestCodec;
    let request = codec
        .decode(bytes)
        .expect("Failed to decode request")
        .expect("Empty request");
    assert_eq!(
        expected_request, request,
        "failed to decode {:?} request",
        request
    );
    assert!(bytes.is_empty(), "decode left bytes behind");
}

fn encode_request_test(request: Request, expected_bytes: Vec<u8>) {
    let mut codec = RequestCodec;
    let mut bytes: Vec<u8> = Vec::new();
    codec
        .encode(request.clone(), &mut bytes)
        .expect("Failed to encode request");
    assert_eq!(
        expected_bytes, bytes,
        "failed to encode {:?} request",
        request
    );
}

#[test]
fn request_failed_on_decoding_unsupported_request_test() {
    let mut codec = RequestCodec;
    let mut bytes: Vec<u8> = vec![0xFF];
    let request = codec.decode(&mut bytes);
    assert!(request.is_err());
}

#[test]
fn request_decode_ping_request_test() {
    let mut bytes: Vec<u8> = vec![PING_TYPE];
    decode_request_test(&mut bytes, Request::Ping);
}

#[test]
fn decode_add_topic_request_test() {
    let topic = "test-topic-name".to_string();
    let retention: u64 = 1;

    let mut bytes: Vec<u8> = vec![ADD_TOPIC_TYPE];
    bytes.extend_from_slice(&(topic.len() as u16).to_be_bytes());
    bytes.extend_from_slice(topic.as_bytes());
    bytes.extend_from_slice(&retention.to_be_bytes());

    decode_request_test(&mut bytes, Request::AddTopic { topic, retention });
}

#[test]
fn decode_list_topics_request_test() {
    let mut bytes: Vec<u8> = vec![LIST_TOPICS_TYPE];
    decode_request_test(&mut bytes, Request::ListTopics);
}

#[test]
fn decode_delete_topic_request_test() {
    let topic = "test-topic-name".to_string();

    let mut bytes: Vec<u8> = vec![DELETE_TOPIC_TYPE];
    bytes.extend_from_slice(&(topic.len() as u16).to_be_bytes());
    bytes.extend_from_slice(topic.as_bytes());

    decode_request_test(&mut bytes, Request::DeleteTopic { topic });
}

#[test]
fn decode_publish_request_test() {
    let topic = "test-topic-name".to_string();
    let payload = b"test-payload".to_vec();

    let mut bytes: Vec<u8> = vec![PUBLISH_TYPE];
    bytes.extend_from_slice(&(topic.len() as u16).to_be_bytes());
    bytes.extend_from_slice(topic.as_bytes());
    bytes.extend_from_slice(&(payload.len() as u32).to_be_bytes());
    bytes.extend_from_slice(payload.as_slice());

    decode_request_test(&mut bytes, Request::Publish { topic, payload });
}

#[test]
fn decode_subscribe_request_test() {
    let topic = "test-topic-name".to_string();
    let uuid = Uuid::new_v4();
    let client_id = client_id_of(uuid);

    let mut bytes: Vec<u8> = vec![SUBSCRIBE_TYPE];
    bytes.extend_from_slice(&(topic.len() as u16).to_be_bytes());
    bytes.extend_from_slice(topic.as_bytes());
    bytes.extend_from_slice(uuid.as_bytes());
    bytes.push(1);
    bytes.extend_from_slice(&0u64.to_be_bytes());

    decode_request_test(
        &mut bytes,
        Request::Subscribe {
            topic,
            client_id,
            from_offset: Some(0),
        },
    );
}

#[test]
fn decode_subscribe_request_without_offset_test() {
    let topic = "test-topic-name".to_string();
    let uuid = Uuid::new_v4();
    let client_id = client_id_of(uuid);

    let mut bytes: Vec<u8> = vec![SUBSCRIBE_TYPE];
    bytes.extend_from_slice(&(topic.len() as u16).to_be_bytes());
    bytes.extend_from_slice(topic.as_bytes());
    bytes.extend_from_slice(uuid.as_bytes());
    bytes.push(0);

    decode_request_test(
        &mut bytes,
        Request::Subscribe {
            topic,
            client_id,
            from_offset: None,
        },
    );
}

#[test]
fn decode_unsubscribe_request_test() {
    let topic = "test-topic-name".to_string();
    let uuid = Uuid::new_v4();
    let client_id = client_id_of(uuid);

    let mut bytes: Vec<u8> = vec![UNSUBSCRIBE_TYPE];
    bytes.extend_from_slice(&(topic.len() as u16).to_be_bytes());
    bytes.extend_from_slice(topic.as_bytes());
    bytes.extend_from_slice(uuid.as_bytes());

    decode_request_test(&mut bytes, Request::Unsubscribe { topic, client_id });
}

#[test]
fn request_encode_ping_request_test() {
    let expected_bytes: Vec<u8> = vec![PING_TYPE];
    encode_request_test(Request::Ping, expected_bytes)
}

#[test]
fn encode_add_topic_request_test() {
    let topic = "test-topic-name".to_string();
    let retention: u64 = 1;

    let mut expected_bytes: Vec<u8> = vec![ADD_TOPIC_TYPE];
    expected_bytes.extend_from_slice(&(topic.len() as u16).to_be_bytes());
    expected_bytes.extend_from_slice(topic.as_bytes());
    expected_bytes.extend_from_slice(&retention.to_be_bytes());

    encode_request_test(Request::AddTopic { topic, retention }, expected_bytes);
}

#[test]
fn encode_list_topics_request_test() {
    let expected_bytes: Vec<u8> = vec![LIST_TOPICS_TYPE];
    encode_request_test(Request::ListTopics, expected_bytes)
}

#[test]
fn encode_delete_topic_request_test() {
    let topic = "test-topic-name".to_string();

    let mut expected_bytes: Vec<u8> = vec![DELETE_TOPIC_TYPE];
    expected_bytes.extend_from_slice(&(topic.len() as u16).to_be_bytes());
    expected_bytes.extend_from_slice(topic.as_bytes());

    encode_request_test(Request::DeleteTopic { topic }, expected_bytes);
}

#[test]
fn encode_publish_request_test() {
    let topic = "test-topic-name".to_string();
    let payload = b"test-payload".to_vec();

    let mut expected_bytes: Vec<u8> = vec![PUBLISH_TYPE];
    expected_bytes.extend_from_slice(&(topic.len() as u16).to_be_bytes());
    expected_bytes.extend_from_slice(topic.as_bytes());
    expected_bytes.extend_from_slice(&(payload.len() as u32).to_be_bytes());
    expected_bytes.extend_from_slice(payload.as_slice());

    encode_request_test(Request::Publish { topic, payload }, expected_bytes);
}

#[test]
fn encode_subscribe_request_test() {
    let topic = "test-topic-name".to_string();
    let uuid = Uuid::new_v4();
    let client_id = client_id_of(uuid);

    let mut expected_bytes: Vec<u8> = vec![SUBSCRIBE_TYPE];
    expected_bytes.extend_from_slice(&(topic.len() as u16).to_be_bytes());
    expected_bytes.extend_from_slice(topic.as_bytes());
    expected_bytes.extend_from_slice(uuid.as_bytes());
    expected_bytes.push(1);
    expected_bytes.extend_from_slice(&0u64.to_be_bytes());

    encode_request_test(
        Request::Subscribe {
            topic,
            client_id,
            from_offset: Some(0),
        },
        expected_bytes,
    );
}

#[test]
fn encode_unsubscribe_request_test() {
    let topic = "test-topic-name".to_string();
    let uuid = Uuid::new_v4();
    let client_id = client_id_of(uuid);

    let mut expected_bytes: Vec<u8> = vec![UNSUBSCRIBE_TYPE];
    expected_bytes.extend_from_slice(&(topic.len() as u16).to_be_bytes());
    expected_bytes.extend_from_slice(topic.as_bytes());
    expected_bytes.extend_from_slice(uuid.as_bytes());

    encode_request_test(Request::Unsubscribe { topic, client_id }, expected_bytes);
}

#[test]
fn request_round_trip_with_multibyte_topic_test() {
    let topic = "th\u{e9}\u{e2}tre-\u{4e3b}\u{9898}".to_string();
    let request = Request::Publish {
        topic,
        payload: vec![0, 1, 2, 255],
    };

    let mut codec = RequestCodec;
    let mut bytes: Vec<u8> = Vec::new();
    codec
        .encode(request.clone(), &mut bytes)
        .expect("Failed to encode request");
    decode_request_test(&mut bytes, request);
}
