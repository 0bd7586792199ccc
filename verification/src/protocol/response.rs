//! Responses: what the broker sends back, and their codec.

use vstd::prelude::*;
use crate::protocol::codec::{
    DecodeError, EncodeError,
    enc_str, enc_bytes, enc_string_vec, u64_be, string_views,
    str_encodable, bytes_encodable, strings_encodable,
    spec_take_string, spec_take_bytes, spec_take_string_vec, spec_take_u64,
    get_u16_as_string, get_u32_as_vec, get_vec_of_strings, get_u64, get_u32,
    put_u16_len_string, put_u32_len_vec, put_vec_of_strings, put_u64, put_u32,
    lemma_take_string_enc, lemma_take_bytes_enc, lemma_take_string_vec_enc, lemma_take_u64_be,
    eq_string, eq_bytes, drop_prefix, copy_range,
};
use crate::topic::TopicName;

verus! {

pub const ERROR_TYPE: u8 = 0x00;
pub const PONG_TYPE: u8 = 0x02;
pub const ACK_TYPE: u8 = 0x04;
pub const NACK_TYPE: u8 = 0x06;
pub const MESSAGE_TYPE: u8 = 0x08;
pub const TOPICS_LIST_TYPE: u8 = 0x10;

/// An answer from the broker: the reply to a request, or one fanned-out
/// message of a subscription.
#[derive(Clone, Debug)]
pub enum Response {
    Error { message: String },
    Pong,
    Ack,
    Nack,
    Message { topic: String, payload: Vec<u8>, offset: u64 },
    TopicsList { topics: Vec<TopicName> },
}

/// The mathematical shape of a response.
pub enum ResponseV {
    Error { message: Seq<char> },
    Pong,
    Ack,
    Nack,
    Message { topic: Seq<char>, payload: Seq<u8>, offset: u64 },
    TopicsList { topics: Seq<Seq<char>> },
}

impl View for Response {
    type V = ResponseV;

    open spec fn view(&self) -> ResponseV {
        match self {
            Response::Error { message } => ResponseV::Error { message: message@ },
            Response::Pong => ResponseV::Pong,
            Response::Ack => ResponseV::Ack,
            Response::Nack => ResponseV::Nack,
            Response::Message { topic, payload, offset } => ResponseV::Message {
                topic: topic@,
                payload: payload@,
                offset: *offset,
            },
            Response::TopicsList { topics } => ResponseV::TopicsList {
                topics: string_views(topics@),
            },
        }
    }
}

impl PartialEq for Response {
    fn eq(&self, other: &Response) -> (r: bool) {
        match (self, other) {
            (Response::Error { message: m1 }, Response::Error { message: m2 }) => {
                eq_string(m1, m2)
            },
            (Response::Pong, Response::Pong) => true,
            (Response::Ack, Response::Ack) => true,
            (Response::Nack, Response::Nack) => true,
            (
                Response::Message { topic: t1, payload: p1, offset: o1 },
                Response::Message { topic: t2, payload: p2, offset: o2 },
            ) => eq_string(t1, t2) && eq_bytes(p1, p2) && *o1 == *o2,
            (Response::TopicsList { topics: v1 }, Response::TopicsList { topics: v2 }) => {
                if v1.len() != v2.len() {
                    proof {
                        assert(string_views(v1@).len() != string_views(v2@).len());
                        assert(string_views(v1@) != string_views(v2@));
                    }
                    return false;
                }
                let mut i: usize = 0;
                while i < v1.len()
                    invariant
                        self@ == (ResponseV::TopicsList { topics: string_views(v1@) }),
                        other@ == (ResponseV::TopicsList { topics: string_views(v2@) }),
                        v1@.len() == v2@.len(),
                        i <= v1@.len(),
                        forall|j: int| 0 <= j < i ==> v1@[j]@ == v2@[j]@,
                    decreases v1@.len() - i,
                {
                    if !eq_string(&v1[i], &v2[i]) {
                        proof {
                            assert(string_views(v1@)[i as int] != string_views(v2@)[i as int]);
                            assert(string_views(v1@) != string_views(v2@));
                            assert(self@ == (ResponseV::TopicsList { topics: string_views(v1@) }));
                            assert(other@ == (ResponseV::TopicsList { topics: string_views(v2@) }));
                        }
                        return false;
                    }
                    i = i + 1;
                }
                proof {
                    assert(string_views(v1@) =~= string_views(v2@));
                }
                true
            },
            _ => false,
        }
    }
}

impl vstd::std_specs::cmp::PartialEqSpecImpl for Response {
    open spec fn obeys_eq_spec() -> bool {
        true
    }

    open spec fn eq_spec(&self, other: &Response) -> bool {
        self@ == other@
    }
}

/// Whether every field of the response fits its wire length prefix.
pub open spec fn response_encodable(sv: ResponseV) -> bool {
    match sv {
        ResponseV::Error { message } => str_encodable(message),
        ResponseV::Pong => true,
        ResponseV::Ack => true,
        ResponseV::Nack => true,
        ResponseV::Message { topic, payload, offset } => str_encodable(topic)
            && bytes_encodable(payload),
        ResponseV::TopicsList { topics } => strings_encodable(topics),
    }
}

/// The body bytes of a response: a tag byte, then the fields.
pub open spec fn spec_encode_response(sv: ResponseV) -> Seq<u8> {
    match sv {
        ResponseV::Error { message } => seq![ERROR_TYPE] + enc_str(message),
        ResponseV::Pong => seq![PONG_TYPE],
        ResponseV::Ack => seq![ACK_TYPE],
        ResponseV::Nack => seq![NACK_TYPE],
        ResponseV::Message { topic, payload, offset } => seq![MESSAGE_TYPE] + enc_str(topic)
            + enc_bytes(payload) + u64_be(offset),
        ResponseV::TopicsList { topics } => seq![TOPICS_LIST_TYPE] + enc_string_vec(topics),
    }
}

/// Parses one response body from the front of `b`. `Ok(None)` means the
/// buffer is empty and more bytes are needed; `Err` means the bytes are
/// invalid for the connection.
pub open spec fn spec_take_response(b: Seq<u8>) -> Result<Option<(ResponseV, Seq<u8>)>, ()> {
    if b.len() == 0 {
        Result::Ok(Option::None)
    } else {
        let tag = b[0];
        let rest = b.skip(1);
        if tag == ERROR_TYPE {
            match spec_take_string(rest) {
                Option::None => Result::Err(()),
                Option::Some((message, r1)) => Result::Ok(
                    Option::Some((ResponseV::Error { message }, r1)),
                ),
            }
        } else if tag == PONG_TYPE {
            Result::Ok(Option::Some((ResponseV::Pong, rest)))
        } else if tag == ACK_TYPE {
            Result::Ok(Option::Some((ResponseV::Ack, rest)))
        } else if tag == NACK_TYPE {
            Result::Ok(Option::Some((ResponseV::Nack, rest)))
        } else if tag == MESSAGE_TYPE {
            match spec_take_string(rest) {
                Option::None => Result::Err(()),
                Option::Some((topic, r1)) => match spec_take_bytes(r1) {
                    Option::None => Result::Err(()),
                    Option::Some((payload, r2)) => match spec_take_u64(r2) {
                        Option::None => Result::Err(()),
                        Option::Some((offset, r3)) => Result::Ok(
                            Option::Some((ResponseV::Message { topic, payload, offset }, r3)),
                        ),
                    },
                },
            }
        } else if tag == TOPICS_LIST_TYPE {
            match spec_take_string_vec(rest) {
                Option::None => Result::Err(()),
                Option::Some((topics, r1)) => Result::Ok(
                    Option::Some((ResponseV::TopicsList { topics }, r1)),
                ),
            }
        } else {
            Result::Err(())
        }
    }
}

/// Every response decodes back from its encoding, with the trailing bytes
/// untouched.
#[verifier::rlimit(60)]
pub proof fn lemma_response_round_trip(sv: ResponseV, rest: Seq<u8>)
    requires
        response_encodable(sv),
    ensures
        spec_take_response(spec_encode_response(sv) + rest)
            == Result::<Option<(ResponseV, Seq<u8>)>, ()>::Ok(Option::Some((sv, rest))),
{
    let b = spec_encode_response(sv) + rest;
    match sv {
        ResponseV::Error { message } => {
            assert(b.skip(1) =~= enc_str(message) + rest);
            lemma_take_string_enc(message, rest);
        },
        ResponseV::Pong => {
            assert(b.skip(1) =~= rest);
        },
        ResponseV::Ack => {
            assert(b.skip(1) =~= rest);
        },
        ResponseV::Nack => {
            assert(b.skip(1) =~= rest);
        },
        ResponseV::Message { topic, payload, offset } => {
            assert(b.skip(1) =~= enc_str(topic) + (enc_bytes(payload) + (u64_be(offset) + rest)));
            lemma_take_string_enc(topic, enc_bytes(payload) + (u64_be(offset) + rest));
            lemma_take_bytes_enc(payload, u64_be(offset) + rest);
            lemma_take_u64_be(offset, rest);
        },
        ResponseV::TopicsList { topics } => {
            assert(b.skip(1) =~= enc_string_vec(topics) + rest);
            lemma_take_string_vec_enc(topics, rest);
        },
    }
}

/// A response fits in one frame when its fields fit their prefixes and the
/// whole body fits the frame's u32 length prefix.
pub open spec fn response_frame_encodable(sv: ResponseV) -> bool {
    response_encodable(sv) && spec_encode_response(sv).len() <= 0xFFFFFFFF
}

/// Parses one length-prefixed frame holding exactly one response body.
/// `Ok(None)` means more bytes are needed; `Err` means the body is invalid
/// or does not fill its frame.
pub open spec fn spec_frame_response(b: Seq<u8>) -> Result<Option<(ResponseV, Seq<u8>)>, ()> {
    match spec_take_bytes(b) {
        Option::None => Result::Ok(Option::None),
        Option::Some((body, rest)) => match spec_take_response(body) {
            Result::Err(()) => Result::Err(()),
            Result::Ok(Option::None) => Result::Err(()),
            Result::Ok(Option::Some((sv, leftover))) => if leftover.len() == 0 {
                Result::Ok(Option::Some((sv, rest)))
            } else {
                Result::Err(())
            },
        },
    }
}

/// Every framed response decodes back from its frame.
pub proof fn lemma_response_frame_round_trip(sv: ResponseV, rest: Seq<u8>)
    requires
        response_frame_encodable(sv),
    ensures
        spec_frame_response(enc_bytes(spec_encode_response(sv)) + rest)
            == Result::<Option<(ResponseV, Seq<u8>)>, ()>::Ok(Option::Some((sv, rest))),
{
    lemma_take_bytes_enc(spec_encode_response(sv), rest);
    lemma_response_round_trip(sv, Seq::<u8>::empty());
    assert(spec_encode_response(sv) + Seq::<u8>::empty() =~= spec_encode_response(sv));
}

/// Translates response bodies to and from bytes. The decoder is
/// restartable: on `Ok(None)` (more bytes needed) and on errors the buffer
/// is left as it was; on success exactly the decoded prefix is consumed.
pub struct ResponseCodec;

impl ResponseCodec {
    #[verifier::rlimit(60)]
    pub fn decode(&mut self, src: &mut Vec<u8>) -> (r: Result<Option<Response>, DecodeError>)
        ensures
            match r {
                Ok(None) => {
                    &&& spec_take_response(old(src)@)
                        == Result::<Option<(ResponseV, Seq<u8>)>, ()>::Ok(Option::None)
                    &&& final(src)@ == old(src)@
                },
                Ok(Some(resp)) => spec_take_response(old(src)@)
                    == Result::<Option<(ResponseV, Seq<u8>)>, ()>::Ok(
                        Option::Some((resp@, final(src)@)),
                    ),
                Err(e) => {
                    &&& spec_take_response(old(src)@) is Err
                    &&& final(src)@ == old(src)@
                },
            },
    {
        if src.len() == 0 {
            return Ok(None);
        }
        let tag = src[0];
        if tag == ERROR_TYPE {
            let (message, p1) = match get_u16_as_string(src, 1) {
                Ok(v) => v,
                Err(e) => { return Err(e); },
            };
            drop_prefix(src, p1);
            Ok(Some(Response::Error { message }))
        } else if tag == PONG_TYPE {
            drop_prefix(src, 1);
            Ok(Some(Response::Pong))
        } else if tag == ACK_TYPE {
            drop_prefix(src, 1);
            Ok(Some(Response::Ack))
        } else if tag == NACK_TYPE {
            drop_prefix(src, 1);
            Ok(Some(Response::Nack))
        } else if tag == MESSAGE_TYPE {
            let (topic, p1) = match get_u16_as_string(src, 1) {
                Ok(v) => v,
                Err(e) => { return Err(e); },
            };
            let (payload, p2) = match get_u32_as_vec(src, p1) {
                Ok(v) => v,
                Err(e) => { return Err(e); },
            };
            let (offset, p3) = match get_u64(src, p2) {
                Ok(v) => v,
                Err(e) => { return Err(e); },
            };
            drop_prefix(src, p3);
            Ok(Some(Response::Message { topic, payload, offset }))
        } else if tag == TOPICS_LIST_TYPE {
            let (topics, p1) = match get_vec_of_strings(src, 1) {
                Ok(v) => v,
                Err(e) => { return Err(e); },
            };
            drop_prefix(src, p1);
            Ok(Some(Response::TopicsList { topics }))
        } else {
            Err(DecodeError::UnknownResponseType)
        }
    }

    /// Reads one whole frame (u32 body length, then the body) and decodes
    /// the body as exactly one response.
    pub fn decode_frame(&mut self, src: &mut Vec<u8>) -> (r: Result<Option<Response>, DecodeError>)
        ensures
            match r {
                Ok(None) => {
                    &&& spec_frame_response(old(src)@)
                        == Result::<Option<(ResponseV, Seq<u8>)>, ()>::Ok(Option::None)
                    &&& final(src)@ == old(src)@
                },
                Ok(Some(resp)) => spec_frame_response(old(src)@)
                    == Result::<Option<(ResponseV, Seq<u8>)>, ()>::Ok(
                        Option::Some((resp@, final(src)@)),
                    ),
                Err(e) => {
                    &&& spec_frame_response(old(src)@) is Err
                    &&& final(src)@ == old(src)@
                },
            },
    {
        proof {
            assert(src@.skip(0) =~= src@);
        }
        let (n, p1) = match get_u32(src, 0) {
            Ok(v) => v,
            Err(e) => { return Ok(None); },
        };
        if ((src.len() - p1) as u64) < n as u64 {
            return Ok(None);
        }
        let end: usize = p1 + n as usize;
        let mut body = copy_range(src, 0, end);
        drop_prefix(&mut body, p1);
        let ghost body0 = body@;
        proof {
            assert(body0 =~= src@.skip(p1 as int).take(n as int));
        }
        let resp = match self.decode(&mut body) {
            Ok(Some(resp)) => resp,
            Ok(None) => { return Err(DecodeError::BufferTooShort); },
            Err(e) => { return Err(e); },
        };
        if body.len() != 0 {
            return Err(DecodeError::TrailingBytes);
        }
        drop_prefix(src, end);
        proof {
            assert(final(src)@ =~= old(src)@.skip(p1 as int).skip(n as int));
        }
        Ok(Some(resp))
    }

    /// Writes one whole frame: the u32 body length, then the encoded
    /// response body. Nothing is written when the response does not fit.
    pub fn encode_frame(&mut self, response: Response, dst: &mut Vec<u8>) -> (r: Result<(), EncodeError>)
        ensures
            match r {
                Ok(()) => {
                    &&& response_frame_encodable(response@)
                    &&& final(dst)@ == old(dst)@ + enc_bytes(spec_encode_response(response@))
                },
                Err(e) => {
                    &&& !response_frame_encodable(response@)
                    &&& final(dst)@ == old(dst)@
                },
            },
    {
        let ghost sv = response@;
        let mut body: Vec<u8> = Vec::new();
        match self.encode(response, &mut body) {
            Ok(()) => {},
            Err(e) => { return Err(e); },
        }
        if (body.len() as u64) > 0xFFFFFFFF {
            return Err(EncodeError);
        }
        put_u32(dst, body.len() as u32);
        dst.append(&mut body);
        proof {
            assert(final(dst)@ =~= old(dst)@ + enc_bytes(spec_encode_response(sv)));
        }
        Ok(())
    }

    pub fn encode(&mut self, response: Response, dst: &mut Vec<u8>) -> (r: Result<(), EncodeError>)
        ensures
            match r {
                Ok(()) => {
                    &&& response_encodable(response@)
                    &&& final(dst)@ == old(dst)@ + spec_encode_response(response@)
                },
                Err(e) => {
                    &&& !response_encodable(response@)
                    &&& final(dst)@ == old(dst)@
                },
            },
    {
        let ghost sv = response@;
        match response {
            Response::Error { message } => {
                let mut tmp: Vec<u8> = Vec::new();
                tmp.push(ERROR_TYPE);
                match put_u16_len_string(&mut tmp, message.as_str()) {
                    Ok(()) => {},
                    Err(e) => { return Err(e); },
                }
                proof {
                    assert(tmp@ =~= spec_encode_response(sv));
                }
                dst.append(&mut tmp);
                Ok(())
            },
            Response::Pong => {
                dst.push(PONG_TYPE);
                proof {
                    assert(final(dst)@ =~= old(dst)@ + spec_encode_response(sv));
                }
                Ok(())
            },
            Response::Ack => {
                dst.push(ACK_TYPE);
                proof {
                    assert(final(dst)@ =~= old(dst)@ + spec_encode_response(sv));
                }
                Ok(())
            },
            Response::Nack => {
                dst.push(NACK_TYPE);
                proof {
                    assert(final(dst)@ =~= old(dst)@ + spec_encode_response(sv));
                }
                Ok(())
            },
            Response::Message { topic, payload, offset } => {
                let mut tmp: Vec<u8> = Vec::new();
                tmp.push(MESSAGE_TYPE);
                match put_u16_len_string(&mut tmp, topic.as_str()) {
                    Ok(()) => {},
                    Err(e) => { return Err(e); },
                }
                match put_u32_len_vec(&mut tmp, payload.as_slice()) {
                    Ok(()) => {},
                    Err(e) => { return Err(e); },
                }
                put_u64(&mut tmp, offset);
                proof {
                    assert(tmp@ =~= spec_encode_response(sv));
                }
                dst.append(&mut tmp);
                Ok(())
            },
            Response::TopicsList { topics } => {
                let mut tmp: Vec<u8> = Vec::new();
                tmp.push(TOPICS_LIST_TYPE);
                match put_vec_of_strings(&mut tmp, topics.as_slice()) {
                    Ok(()) => {},
                    Err(e) => { return Err(e); },
                }
                proof {
                    assert(tmp@ =~= spec_encode_response(sv));
                }
                dst.append(&mut tmp);
                Ok(())
            },
        }
    }
}

} // verus!
