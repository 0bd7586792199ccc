use kafkalite::protocol::codec::{DecodeError, EncodeError};
use kafkalite::protocol::request::{Request, RequestCodec};
use kafkalite::protocol::response::{Response, ResponseCodec};

#[test]
fn decoder_on_empty_buffer_needs_more() {
    let mut request_codec = RequestCodec;
    let mut bytes: Vec<u8> = Vec::new();
    assert_eq!(request_codec.decode(&mut bytes), Ok(None));

    let mut response_codec = ResponseCodec;
    let mut bytes: Vec<u8> = Vec::new();
    assert_eq!(response_codec.decode(&mut bytes), Ok(None));
}

#[test]
fn decoder_on_single_unknown_tag_byte_fails() {
    let mut request_codec = RequestCodec;
    let mut bytes: Vec<u8> = vec![0x55];
    assert_eq!(
        request_codec.decode(&mut bytes),
        Err(DecodeError::UnknownRequestType)
    );

    let mut response_codec = ResponseCodec;
    let mut bytes: Vec<u8> = vec![0x55];
    assert_eq!(
        response_codec.decode(&mut bytes),
        Err(DecodeError::UnknownResponseType)
    );
}

#[test]
fn decoder_reports_truncated_string_field() {
    // AddTopic claiming a 10-byte topic, with only 3 bytes present.
    let mut bytes: Vec<u8> = vec![0x03, 0x00, 0x0A, b'a', b'b', b'c'];
    let mut codec = RequestCodec;
    assert_eq!(codec.decode(&mut bytes), Err(DecodeError::BufferTooShort));
}

#[test]
fn decoder_reports_invalid_utf8_in_topic() {
    // DeleteTopic whose 2-byte topic is not valid UTF-8.
    let mut bytes: Vec<u8> = vec![0x07, 0x00, 0x02, 0xC3, 0x28];
    let mut codec = RequestCodec;
    assert_eq!(codec.decode(&mut bytes), Err(DecodeError::InvalidUtf8));
}

#[test]
fn encoder_refuses_oversized_topic_name() {
    let topic = "x".repeat(70_000);
    let mut codec = RequestCodec;
    let mut bytes: Vec<u8> = Vec::new();
    let result = codec.encode(Request::DeleteTopic { topic }, &mut bytes);
    assert_eq!(result, Err(EncodeError));
    assert!(bytes.is_empty(), "a refused frame must emit nothing");
}

#[test]
fn request_frame_codec_is_restartable_across_partial_reads() {
    let request = Request::Publish {
        topic: "test-topic".to_string(),
        payload: b"test-payload".to_vec(),
    };
    let mut codec = RequestCodec;
    let mut wire: Vec<u8> = Vec::new();
    codec
        .encode_frame(request.clone(), &mut wire)
        .expect("Failed to encode the frame");

    // Feed the frame byte by byte: every prefix short of the whole frame
    // asks for more bytes and consumes nothing.
    let mut buffer: Vec<u8> = Vec::new();
    for (i, byte) in wire.iter().enumerate() {
        buffer.push(*byte);
        if i + 1 < wire.len() {
            assert_eq!(codec.decode_frame(&mut buffer), Ok(None));
            assert_eq!(buffer.len(), i + 1, "need-more must not lose bytes");
        }
    }
    let decoded = codec
        .decode_frame(&mut buffer)
        .expect("Failed to decode the frame")
        .expect("Expected a whole frame");
    assert_eq!(request, decoded);
    assert!(buffer.is_empty());
}

#[test]
fn response_frame_codec_round_trips_two_frames() {
    let first = Response::Message {
        topic: "test-topic".to_string(),
        payload: vec![1, 2, 3],
        offset: 0,
    };
    let second = Response::Ack;

    let mut codec = ResponseCodec;
    let mut wire: Vec<u8> = Vec::new();
    codec
        .encode_frame(first.clone(), &mut wire)
        .expect("Failed to encode the first frame");
    codec
        .encode_frame(second.clone(), &mut wire)
        .expect("Failed to encode the second frame");

    let one = codec
        .decode_frame(&mut wire)
        .expect("Failed to decode the first frame")
        .expect("Expected the first frame");
    assert_eq!(first, one);
    let two = codec
        .decode_frame(&mut wire)
        .expect("Failed to decode the second frame")
        .expect("Expected the second frame");
    assert_eq!(second, two);
    assert!(wire.is_empty());
}

#[test]
fn frame_with_trailing_bytes_inside_is_refused() {
    // A frame whose 2-byte body is a Pong followed by a stray byte.
    let mut bytes: Vec<u8> = vec![0x00, 0x00, 0x00, 0x02, 0x02, 0x99];
    let mut codec = ResponseCodec;
    assert_eq!(
        codec.decode_frame(&mut bytes),
        Err(DecodeError::TrailingBytes)
    );
}
