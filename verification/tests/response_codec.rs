use kafkalite::protocol::response::{Response, ResponseCodec};

const ERROR_TYPE: u8 = 0x00;
const PONG_TYPE: u8 = 0x02;
const ACK_TYPE: u8 = 0x04;
const NACK_TYPE: u8 = 0x06;
const MESSAGE_TYPE: u8 = 0x08;
const TOPICS_LIST_TYPE: u8 = 0x10;

fn decode_response_test(bytes: &mut Vec<u8>, expected_response: Response) {
    let mut codec = ResponseCodec;
    let response = codec
        .decode(bytes)
        .expect("Failed to decode response")
        .expect("Empty response");
    assert_eq!(
        expected_response, response,
        "failed to decode {:?} response",
        response
    );
    assert!(bytes.is_empty(), "decode left bytes behind");
}

fn encode_response_test(response: Response, expected_bytes: Vec<u8>) {
    let mut codec = ResponseCodec;
    let mut bytes: Vec<u8> = Vec::new();
    codec
        .encode(response.clone(), &mut bytes)
        .expect("Failed to encode response");
    assert_eq!(
        expected_bytes, bytes,
        "failed to encode {:?} response",
        response
    );
}

#[test]
fn response_failed_on_decoding_unsupported_response_test() {
    let mut codec = ResponseCodec;
    let mut bytes: Vec<u8> = vec![0xFF];
    let response = codec.decode(&mut bytes);
    assert!(response.is_err());
}

#[test]
fn response_decode_pong_response_test() {
    let mut bytes: Vec<u8> = vec![PONG_TYPE];
    decode_response_test(&mut bytes, Response::Pong);
}

#[test]
fn decode_ack_response_test() {
    let mut bytes: Vec<u8> = vec![ACK_TYPE];
    decode_response_test(&mut bytes, Response::Ack);
}

#[test]
fn decode_nack_response_test() {
    let mut bytes: Vec<u8> = vec![NACK_TYPE];
    decode_response_test(&mut bytes, Response::Nack);
}

#[test]
fn decode_error_response_test() {
    let message = "Topic test-topic not found".to_string();

    let mut bytes: Vec<u8> = vec![ERROR_TYPE];
    bytes.extend_from_slice(&(message.len() as u16).to_be_bytes());
    bytes.extend_from_slice(message.as_bytes());

    decode_response_test(&mut bytes, Response::Error { message });
}

#[test]
fn decode_message_response_test() {
    let topic = "test-topic-name".to_string();
    let payload = b"test-payload".to_vec();
    let offset: u64 = 42;

    let mut bytes: Vec<u8> = vec![MESSAGE_TYPE];
    bytes.extend_from_slice(&(topic.len() as u16).to_be_bytes());
    bytes.extend_from_slice(topic.as_bytes());
    bytes.extend_from_slice(&(payload.len() as u32).to_be_bytes());
    bytes.extend_from_slice(payload.as_slice());
    bytes.extend_from_slice(&offset.to_be_bytes());

    decode_response_test(
        &mut bytes,
        Response::Message {
            topic,
            payload,
            offset,
        },
    );
}

#[test]
fn decode_topics_list_response_test() {
    let topics = vec![
        String::from("test-topic-name-1"),
        String::from("test-topic-name-2"),
        String::from("test-topic-name-3"),
    ];

    let mut bytes: Vec<u8> = vec![TOPICS_LIST_TYPE];
    bytes.extend_from_slice(&(topics.len() as u16).to_be_bytes());
    for topic in topics.iter() {
        bytes.extend_from_slice(&(topic.len() as u16).to_be_bytes());
        bytes.extend_from_slice(topic.as_bytes());
    }

    decode_response_test(&mut bytes, Response::TopicsList { topics });
}

#[test]
fn response_encode_pong_response_test() {
    let expected_bytes: Vec<u8> = vec![PONG_TYPE];
    encode_response_test(Response::Pong, expected_bytes);
}

#[test]
fn encode_ack_response_test() {
    let expected_bytes: Vec<u8> = vec![ACK_TYPE];
    encode_response_test(Response::Ack, expected_bytes);
}

#[test]
fn encode_nack_response_test() {
    let expected_bytes: Vec<u8> = vec![NACK_TYPE];
    encode_response_test(Response::Nack, expected_bytes);
}

#[test]
fn encode_error_response_test() {
    let message = "Topic test-topic not found".to_string();

    let mut expected_bytes: Vec<u8> = vec![ERROR_TYPE];
    expected_bytes.extend_from_slice(&(message.len() as u16).to_be_bytes());
    expected_bytes.extend_from_slice(message.as_bytes());

    encode_response_test(Response::Error { message }, expected_bytes);
}

#[test]
fn encode_message_response_test() {
    let topic = "test-topic-name".to_string();
    let payload = b"test-payload".to_vec();
    let offset: u64 = 42;

    let mut expected_bytes: Vec<u8> = vec![MESSAGE_TYPE];
    expected_bytes.extend_from_slice(&(topic.len() as u16).to_be_bytes());
    expected_bytes.extend_from_slice(topic.as_bytes());
    expected_bytes.extend_from_slice(&(payload.len() as u32).to_be_bytes());
    expected_bytes.extend_from_slice(payload.as_slice());
    expected_bytes.extend_from_slice(&offset.to_be_bytes());

    encode_response_test(
        Response::Message {
            topic,
            payload,
            offset,
        },
        expected_bytes,
    );
}

#[test]
fn encode_topics_list_response_test() {
    let topics = vec![
        String::from("test-topic-name-1"),
        String::from("test-topic-name-2"),
        String::from("test-topic-name-3"),
    ];

    let mut expected_bytes: Vec<u8> = vec![TOPICS_LIST_TYPE];
    expected_bytes.extend_from_slice(&(topics.len() as u16).to_be_bytes());
    for topic in topics.iter() {
        expected_bytes.extend_from_slice(&(topic.len() as u16).to_be_bytes());
        expected_bytes.extend_from_slice(topic.as_bytes());
    }

    encode_response_test(Response::TopicsList { topics }, expected_bytes);
}

#[test]
fn response_round_trip_for_each_variant_test() {
    let responses = vec![
        Response::Error {
            message: "Topic caf\u{e9} not found".to_string(),
        },
        Response::Pong,
        Response::Ack,
        Response::Nack,
        Response::Message {
            topic: "t".to_string(),
            payload: vec![],
            offset: u64::MAX,
        },
        Response::TopicsList { topics: vec![] },
    ];
    for response in responses {
        let mut codec = ResponseCodec;
        let mut bytes: Vec<u8> = Vec::new();
        codec
            .encode(response.clone(), &mut bytes)
            .expect("Failed to encode response");
        let decoded = codec
            .decode(&mut bytes)
            .expect("Failed to decode response")
            .expect("Empty response");
        assert_eq!(response, decoded);
        assert!(bytes.is_empty());
    }
}
