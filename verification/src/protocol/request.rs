//! Requests: the typed commands a client sends, and their codec.

use vstd::prelude::*;
use crate::protocol::codec::{
    DecodeError, EncodeError,
    enc_str, enc_bytes, enc_client_id, enc_u64_option, u64_be,
    str_encodable, bytes_encodable,
    spec_take_string, spec_take_bytes, spec_take_client_id, spec_take_u64_option, spec_take_u64,
    get_u16_as_string, get_u32_as_vec, get_uuid, get_u64_option, get_u64, get_u32,
    put_u16_len_string, put_u32_len_vec, put_uuid, put_u64_option, put_u64, put_u32,
    lemma_take_string_enc, lemma_take_bytes_enc, lemma_take_client_id_enc,
    lemma_take_u64_option_enc, lemma_take_u64_be,
    eq_string, eq_bytes, drop_prefix, copy_range,
};
use crate::topic::{ClientId, TopicName};

verus! {

pub const PING_TYPE: u8 = 0x01;
pub const ADD_TOPIC_TYPE: u8 = 0x03;
pub const LIST_TOPICS_TYPE: u8 = 0x05;
pub const DELETE_TOPIC_TYPE: u8 = 0x07;
pub const PUBLISH_TYPE: u8 = 0x09;
pub const SUBSCRIBE_TYPE: u8 = 0x11;
pub const UNSUBSCRIBE_TYPE: u8 = 0x13;

/// A command from a client.
#[derive(Clone, Debug)]
pub enum Request {
    Ping,
    AddTopic { topic: TopicName, retention: u64 },
    ListTopics,
    DeleteTopic { topic: TopicName },
    Publish { topic: TopicName, payload: Vec<u8> },
    Subscribe { topic: TopicName, client_id: ClientId, from_offset: Option<u64> },
    Unsubscribe { topic: TopicName, client_id: ClientId },
}

/// The mathematical shape of a request: strings as character sequences and
/// payloads as byte sequences.
pub enum RequestV {
    Ping,
    AddTopic { topic: Seq<char>, retention: u64 },
    ListTopics,
    DeleteTopic { topic: Seq<char> },
    Publish { topic: Seq<char>, payload: Seq<u8> },
    Subscribe { topic: Seq<char>, client_id: ClientId, from_offset: Option<u64> },
    Unsubscribe { topic: Seq<char>, client_id: ClientId },
}

impl View for Request {
    type V = RequestV;

    open spec fn view(&self) -> RequestV {
        match self {
            Request::Ping => RequestV::Ping,
            Request::AddTopic { topic, retention } => RequestV::AddTopic {
                topic: topic@,
                retention: *retention,
            },
            Request::ListTopics => RequestV::ListTopics,
            Request::DeleteTopic { topic } => RequestV::DeleteTopic { topic: topic@ },
            Request::Publish { topic, payload } => RequestV::Publish {
                topic: topic@,
                payload: payload@,
            },
            Request::Subscribe { topic, client_id, from_offset } => RequestV::Subscribe {
                topic: topic@,
                client_id: *client_id,
                from_offset: *from_offset,
            },
            Request::Unsubscribe { topic, client_id } => RequestV::Unsubscribe {
                topic: topic@,
                client_id: *client_id,
            },
        }
    }
}

impl PartialEq for Request {
    fn eq(&self, other: &Request) -> (r: bool) {
        match (self, other) {
            (Request::Ping, Request::Ping) => true,
            (
                Request::AddTopic { topic: t1, retention: r1 },
                Request::AddTopic { topic: t2, retention: r2 },
            ) => eq_string(t1, t2) && *r1 == *r2,
            (Request::ListTopics, Request::ListTopics) => true,
            (Request::DeleteTopic { topic: t1 }, Request::DeleteTopic { topic: t2 }) => {
                eq_string(t1, t2)
            },
            (
                Request::Publish { topic: t1, payload: p1 },
                Request::Publish { topic: t2, payload: p2 },
            ) => eq_string(t1, t2) && eq_bytes(p1, p2),
            (
                Request::Subscribe { topic: t1, client_id: c1, from_offset: o1 },
                Request::Subscribe { topic: t2, client_id: c2, from_offset: o2 },
            ) => {
                let off_eq = match (*o1, *o2) {
                    (Option::None, Option::None) => true,
                    (Option::Some(x), Option::Some(y)) => x == y,
                    _ => false,
                };
                eq_string(t1, t2) && *c1 == *c2 && off_eq
            },
            (
                Request::Unsubscribe { topic: t1, client_id: c1 },
                Request::Unsubscribe { topic: t2, client_id: c2 },
            ) => eq_string(t1, t2) && *c1 == *c2,
            _ => false,
        }
    }
}

impl vstd::std_specs::cmp::PartialEqSpecImpl for Request {
    open spec fn obeys_eq_spec() -> bool {
        true
    }

    open spec fn eq_spec(&self, other: &Request) -> bool {
        self@ == other@
    }
}

/// Whether every field of the request fits its wire length prefix.
pub open spec fn request_encodable(rv: RequestV) -> bool {
    match rv {
        RequestV::Ping => true,
        RequestV::AddTopic { topic, retention } => str_encodable(topic),
        RequestV::ListTopics => true,
        RequestV::DeleteTopic { topic } => str_encodable(topic),
        RequestV::Publish { topic, payload } => str_encodable(topic) && bytes_encodable(payload),
        RequestV::Subscribe { topic, client_id, from_offset } => str_encodable(topic),
        RequestV::Unsubscribe { topic, client_id } => str_encodable(topic),
    }
}

/// The body bytes of a request: a tag byte, then the fields.
pub open spec fn spec_encode_request(rv: RequestV) -> Seq<u8> {
    match rv {
        RequestV::Ping => seq![PING_TYPE],
        RequestV::AddTopic { topic, retention } => seq![ADD_TOPIC_TYPE] + enc_str(topic)
            + u64_be(retention),
        RequestV::ListTopics => seq![LIST_TOPICS_TYPE],
        RequestV::DeleteTopic { topic } => seq![DELETE_TOPIC_TYPE] + enc_str(topic),
        RequestV::Publish { topic, payload } => seq![PUBLISH_TYPE] + enc_str(topic)
            + enc_bytes(payload),
        RequestV::Subscribe { topic, client_id, from_offset } => seq![SUBSCRIBE_TYPE]
            + enc_str(topic) + enc_client_id(client_id) + enc_u64_option(from_offset),
        RequestV::Unsubscribe { topic, client_id } => seq![UNSUBSCRIBE_TYPE] + enc_str(topic)
            + enc_client_id(client_id),
    }
}

/// Parses one request body from the front of `b`. `Ok(None)` means the
/// buffer is empty and more bytes are needed; `Err` means the bytes are
/// invalid for the connection.
pub open spec fn spec_take_request(b: Seq<u8>) -> Result<Option<(RequestV, Seq<u8>)>, ()> {
    if b.len() == 0 {
        Result::Ok(Option::None)
    } else {
        let tag = b[0];
        let rest = b.skip(1);
        if tag == PING_TYPE {
            Result::Ok(Option::Some((RequestV::Ping, rest)))
        } else if tag == ADD_TOPIC_TYPE {
            match spec_take_string(rest) {
                Option::None => Result::Err(()),
                Option::Some((topic, r1)) => match spec_take_u64(r1) {
                    Option::None => Result::Err(()),
                    Option::Some((retention, r2)) => Result::Ok(
                        Option::Some((RequestV::AddTopic { topic, retention }, r2)),
                    ),
                },
            }
        } else if tag == LIST_TOPICS_TYPE {
            Result::Ok(Option::Some((RequestV::ListTopics, rest)))
        } else if tag == DELETE_TOPIC_TYPE {
            match spec_take_string(rest) {
                Option::None => Result::Err(()),
                Option::Some((topic, r1)) => Result::Ok(
                    Option::Some((RequestV::DeleteTopic { topic }, r1)),
                ),
            }
        } else if tag == PUBLISH_TYPE {
            match spec_take_string(rest) {
                Option::None => Result::Err(()),
                Option::Some((topic, r1)) => match spec_take_bytes(r1) {
                    Option::None => Result::Err(()),
                    Option::Some((payload, r2)) => Result::Ok(
                        Option::Some((RequestV::Publish { topic, payload }, r2)),
                    ),
                },
            }
        } else if tag == SUBSCRIBE_TYPE {
            match spec_take_string(rest) {
                Option::None => Result::Err(()),
                Option::Some((topic, r1)) => match spec_take_client_id(r1) {
                    Option::None => Result::Err(()),
                    Option::Some((client_id, r2)) => match spec_take_u64_option(r2) {
                        Option::None => Result::Err(()),
                        Option::Some((from_offset, r3)) => Result::Ok(
                            Option::Some((
                                RequestV::Subscribe { topic, client_id, from_offset },
                                r3,
                            )),
                        ),
                    },
                },
            }
        } else if tag == UNSUBSCRIBE_TYPE {
            match spec_take_string(rest) {
                Option::None => Result::Err(()),
                Option::Some((topic, r1)) => match spec_take_client_id(r1) {
                    Option::None => Result::Err(()),
                    Option::Some((client_id, r2)) => Result::Ok(
                        Option::Some((RequestV::Unsubscribe { topic, client_id }, r2)),
                    ),
                },
            }
        } else {
            Result::Err(())
        }
    }
}

/// Every request decodes back from its encoding, with the trailing bytes
/// untouched.
#[verifier::rlimit(60)]
pub proof fn lemma_request_round_trip(rv: RequestV, rest: Seq<u8>)
    requires
        request_encodable(rv),
    ensures
        spec_take_request(spec_encode_request(rv) + rest)
            == Result::<Option<(RequestV, Seq<u8>)>, ()>::Ok(Option::Some((rv, rest))),
{
    let b = spec_encode_request(rv) + rest;
    match rv {
        RequestV::Ping => {
            assert(b.skip(1) =~= rest);
        },
        RequestV::AddTopic { topic, retention } => {
            assert(b.skip(1) =~= enc_str(topic) + (u64_be(retention) + rest));
            lemma_take_string_enc(topic, u64_be(retention) + rest);
            lemma_take_u64_be(retention, rest);
        },
        RequestV::ListTopics => {
            assert(b.skip(1) =~= rest);
        },
        RequestV::DeleteTopic { topic } => {
            assert(b.skip(1) =~= enc_str(topic) + rest);
            lemma_take_string_enc(topic, rest);
        },
        RequestV::Publish { topic, payload } => {
            assert(b.skip(1) =~= enc_str(topic) + (enc_bytes(payload) + rest));
            lemma_take_string_enc(topic, enc_bytes(payload) + rest);
            lemma_take_bytes_enc(payload, rest);
        },
        RequestV::Subscribe { topic, client_id, from_offset } => {
            assert(b.skip(1) =~= enc_str(topic)
                + (enc_client_id(client_id) + (enc_u64_option(from_offset) + rest)));
            lemma_take_string_enc(
                topic,
                enc_client_id(client_id) + (enc_u64_option(from_offset) + rest),
            );
            lemma_take_client_id_enc(client_id, enc_u64_option(from_offset) + rest);
            lemma_take_u64_option_enc(from_offset, rest);
        },
        RequestV::Unsubscribe { topic, client_id } => {
            assert(b.skip(1) =~= enc_str(topic) + (enc_client_id(client_id) + rest));
            lemma_take_string_enc(topic, enc_client_id(client_id) + rest);
            lemma_take_client_id_enc(client_id, rest);
        },
    }
}

/// A request fits in one frame when its fields fit their prefixes and the
/// whole body fits the frame's u32 length prefix.
pub open spec fn request_frame_encodable(rv: RequestV) -> bool {
    request_encodable(rv) && spec_encode_request(rv).len() <= 0xFFFFFFFF
}

/// Parses one length-prefixed frame holding exactly one request body.
/// `Ok(None)` means more bytes are needed (the prefix or the body is not
/// complete yet); `Err` means the body is invalid or does not fill its
/// frame.
pub open spec fn spec_frame_request(b: Seq<u8>) -> Result<Option<(RequestV, Seq<u8>)>, ()> {
    match spec_take_bytes(b) {
        Option::None => Result::Ok(Option::None),
        Option::Some((body, rest)) => match spec_take_request(body) {
            Result::Err(()) => Result::Err(()),
            Result::Ok(Option::None) => Result::Err(()),
            Result::Ok(Option::Some((rv, leftover))) => if leftover.len() == 0 {
                Result::Ok(Option::Some((rv, rest)))
            } else {
                Result::Err(())
            },
        },
    }
}

/// Every framed request decodes back from its frame.
pub proof fn lemma_request_frame_round_trip(rv: RequestV, rest: Seq<u8>)
    requires
        request_frame_encodable(rv),
    ensures
        spec_frame_request(enc_bytes(spec_encode_request(rv)) + rest)
            == Result::<Option<(RequestV, Seq<u8>)>, ()>::Ok(Option::Some((rv, rest))),
{
    lemma_take_bytes_enc(spec_encode_request(rv), rest);
    lemma_request_round_trip(rv, Seq::<u8>::empty());
    assert(spec_encode_request(rv) + Seq::<u8>::empty() =~= spec_encode_request(rv));
}

/// Translates request bodies to and from bytes. The decoder is restartable:
/// on `Ok(None)` (more bytes needed) and on errors the buffer is left as it
/// was; on success exactly the decoded prefix is consumed.
pub struct RequestCodec;

impl RequestCodec {
    #[verifier::rlimit(60)]
    pub fn decode(&mut self, src: &mut Vec<u8>) -> (r: Result<Option<Request>, DecodeError>)
        ensures
            match r {
                Ok(None) => {
                    &&& spec_take_request(old(src)@)
                        == Result::<Option<(RequestV, Seq<u8>)>, ()>::Ok(Option::None)
                    &&& final(src)@ == old(src)@
                },
                Ok(Some(req)) => spec_take_request(old(src)@)
                    == Result::<Option<(RequestV, Seq<u8>)>, ()>::Ok(
                        Option::Some((req@, final(src)@)),
                    ),
                Err(e) => {
                    &&& spec_take_request(old(src)@) is Err
                    &&& final(src)@ == old(src)@
                },
            },
    {
        if src.len() == 0 {
            return Ok(None);
        }
        let tag = src[0];
        if tag == PING_TYPE {
            drop_prefix(src, 1);
            Ok(Some(Request::Ping))
        } else if tag == ADD_TOPIC_TYPE {
            let (topic, p1) = match get_u16_as_string(src, 1) {
                Ok(v) => v,
                Err(e) => { return Err(e); },
            };
            let (retention, p2) = match get_u64(src, p1) {
                Ok(v) => v,
                Err(e) => { return Err(e); },
            };
            drop_prefix(src, p2);
            Ok(Some(Request::AddTopic { topic, retention }))
        } else if tag == LIST_TOPICS_TYPE {
            drop_prefix(src, 1);
            Ok(Some(Request::ListTopics))
        } else if tag == DELETE_TOPIC_TYPE {
            let (topic, p1) = match get_u16_as_string(src, 1) {
                Ok(v) => v,
                Err(e) => { return Err(e); },
            };
            drop_prefix(src, p1);
            Ok(Some(Request::DeleteTopic { topic }))
        } else if tag == PUBLISH_TYPE {
            let (topic, p1) = match get_u16_as_string(src, 1) {
                Ok(v) => v,
                Err(e) => { return Err(e); },
            };
            let (payload, p2) = match get_u32_as_vec(src, p1) {
                Ok(v) => v,
                Err(e) => { return Err(e); },
            };
            drop_prefix(src, p2);
            Ok(Some(Request::Publish { topic, payload }))
        } else if tag == SUBSCRIBE_TYPE {
            let (topic, p1) = match get_u16_as_string(src, 1) {
                Ok(v) => v,
                Err(e) => { return Err(e); },
            };
            let (client_id, p2) = match get_uuid(src, p1) {
                Ok(v) => v,
                Err(e) => { return Err(e); },
            };
            let (from_offset, p3) = match get_u64_option(src, p2) {
                Ok(v) => v,
                Err(e) => { return Err(e); },
            };
            drop_prefix(src, p3);
            Ok(Some(Request::Subscribe { topic, client_id, from_offset }))
        } else if tag == UNSUBSCRIBE_TYPE {
            let (topic, p1) = match get_u16_as_string(src, 1) {
                Ok(v) => v,
                Err(e) => { return Err(e); },
            };
            let (client_id, p2) = match get_uuid(src, p1) {
                Ok(v) => v,
                Err(e) => { return Err(e); },
            };
            drop_prefix(src, p2);
            Ok(Some(Request::Unsubscribe { topic, client_id }))
        } else {
            Err(DecodeError::UnknownRequestType)
        }
    }

    /// Reads one whole frame (u32 body length, then the body) and decodes
    /// the body as exactly one request.
    pub fn decode_frame(&mut self, src: &mut Vec<u8>) -> (r: Result<Option<Request>, DecodeError>)
        ensures
            match r {
                Ok(None) => {
                    &&& spec_frame_request(old(src)@)
                        == Result::<Option<(RequestV, Seq<u8>)>, ()>::Ok(Option::None)
                    &&& final(src)@ == old(src)@
                },
                Ok(Some(req)) => spec_frame_request(old(src)@)
                    == Result::<Option<(RequestV, Seq<u8>)>, ()>::Ok(
                        Option::Some((req@, final(src)@)),
                    ),
                Err(e) => {
                    &&& spec_frame_request(old(src)@) is Err
                    &&& final(src)@ == old(src)@
                },
            },
    {
        proof {
            assert(src@.skip(0) =~= src@);
        }
        let (n, p1) = match get_u32(src, 0) {
            Ok(v) => v,
            Err(e) => { return Ok(None); },
        };
        if ((src.len() - p1) as u64) < n as u64 {
            return Ok(None);
        }
        let end: usize = p1 + n as usize;
        let mut body = copy_range(src, 0, end);
        drop_prefix(&mut body, p1);
        let ghost body0 = body@;
        proof {
            assert(body0 =~= src@.skip(p1 as int).take(n as int));
        }
        let req = match self.decode(&mut body) {
            Ok(Some(req)) => req,
            Ok(None) => { return Err(DecodeError::BufferTooShort); },
            Err(e) => { return Err(e); },
        };
        if body.len() != 0 {
            return Err(DecodeError::TrailingBytes);
        }
        drop_prefix(src, end);
        proof {
            assert(final(src)@ =~= old(src)@.skip(p1 as int).skip(n as int));
        }
        Ok(Some(req))
    }

    /// Writes one whole frame: the u32 body length, then the encoded
    /// request body. Nothing is written when the request does not fit.
    pub fn encode_frame(&mut self, request: Request, dst: &mut Vec<u8>) -> (r: Result<(), EncodeError>)
        ensures
            match r {
                Ok(()) => {
                    &&& request_frame_encodable(request@)
                    &&& final(dst)@ == old(dst)@ + enc_bytes(spec_encode_request(request@))
                },
                Err(e) => {
                    &&& !request_frame_encodable(request@)
                    &&& final(dst)@ == old(dst)@
                },
            },
    {
        let ghost rv = request@;
        let mut body: Vec<u8> = Vec::new();
        match self.encode(request, &mut body) {
            Ok(()) => {},
            Err(e) => { return Err(e); },
        }
        if (body.len() as u64) > 0xFFFFFFFF {
            return Err(EncodeError);
        }
        put_u32(dst, body.len() as u32);
        dst.append(&mut body);
        proof {
            assert(final(dst)@ =~= old(dst)@ + enc_bytes(spec_encode_request(rv)));
        }
        Ok(())
    }

    pub fn encode(&mut self, request: Request, dst: &mut Vec<u8>) -> (r: Result<(), EncodeError>)
        ensures
            match r {
                Ok(()) => {
                    &&& request_encodable(request@)
                    &&& final(dst)@ == old(dst)@ + spec_encode_request(request@)
                },
                Err(e) => {
                    &&& !request_encodable(request@)
                    &&& final(dst)@ == old(dst)@
                },
            },
    {
        let ghost rv = request@;
        match request {
            Request::Ping => {
                dst.push(PING_TYPE);
                proof {
                    assert(final(dst)@ =~= old(dst)@ + spec_encode_request(rv));
                }
                Ok(())
            },
            Request::AddTopic { topic, retention } => {
                let mut tmp: Vec<u8> = Vec::new();
                tmp.push(ADD_TOPIC_TYPE);
                match put_u16_len_string(&mut tmp, topic.as_str()) {
                    Ok(()) => {},
                    Err(e) => { return Err(e); },
                }
                put_u64(&mut tmp, retention);
                proof {
                    assert(tmp@ =~= spec_encode_request(rv));
                }
                dst.append(&mut tmp);
                Ok(())
            },
            Request::ListTopics => {
                dst.push(LIST_TOPICS_TYPE);
                proof {
                    assert(final(dst)@ =~= old(dst)@ + spec_encode_request(rv));
                }
                Ok(())
            },
            Request::DeleteTopic { topic } => {
                let mut tmp: Vec<u8> = Vec::new();
                tmp.push(DELETE_TOPIC_TYPE);
                match put_u16_len_string(&mut tmp, topic.as_str()) {
                    Ok(()) => {},
                    Err(e) => { return Err(e); },
                }
                proof {
                    assert(tmp@ =~= spec_encode_request(rv));
                }
                dst.append(&mut tmp);
                Ok(())
            },
            Request::Publish { topic, payload } => {
                let mut tmp: Vec<u8> = Vec::new();
                tmp.push(PUBLISH_TYPE);
                match put_u16_len_string(&mut tmp, topic.as_str()) {
                    Ok(()) => {},
                    Err(e) => { return Err(e); },
                }
                match put_u32_len_vec(&mut tmp, payload.as_slice()) {
                    Ok(()) => {},
                    Err(e) => { return Err(e); },
                }
                proof {
                    assert(tmp@ =~= spec_encode_request(rv));
                }
                dst.append(&mut tmp);
                Ok(())
            },
            Request::Subscribe { topic, client_id, from_offset } => {
                let mut tmp: Vec<u8> = Vec::new();
                tmp.push(SUBSCRIBE_TYPE);
                match put_u16_len_string(&mut tmp, topic.as_str()) {
                    Ok(()) => {},
                    Err(e) => { return Err(e); },
                }
                put_uuid(&mut tmp, client_id);
                put_u64_option(&mut tmp, from_offset);
                proof {
                    assert(tmp@ =~= spec_encode_request(rv));
                }
                dst.append(&mut tmp);
                Ok(())
            },
            Request::Unsubscribe { topic, client_id } => {
                let mut tmp: Vec<u8> = Vec::new();
                tmp.push(UNSUBSCRIBE_TYPE);
                match put_u16_len_string(&mut tmp, topic.as_str()) {
                    Ok(()) => {},
                    Err(e) => { return Err(e); },
                }
                put_uuid(&mut tmp, client_id);
                proof {
                    assert(tmp@ =~= spec_encode_request(rv));
                }
                dst.append(&mut tmp);
                Ok(())
            },
        }
    }
}

} // verus!
