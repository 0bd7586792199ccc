//! The dispatcher: maps one decoded request to its effect on the registry
//! and to the response the client gets back.

use vstd::prelude::*;
use crate::broker::Broker;
use crate::handler;
use crate::protocol::request::Request;
use crate::protocol::response::{Response, ResponseV};
use crate::topic::{Subscription, fresh_topic, publish_post, subscribe_post, unsubscribe_post,
    records_view};
use vstd::string::StringExecFns;

verus! {

/// What the broker answers: one immediate response, or — for a subscribe —
/// the subscription whose replayed and live records become a stream of
/// `Message` responses behind the `Ack`.
pub enum BrokerResponse {
    BasicResponse(Response),
    StreamedResponse(Subscription),
}

/// An error a handler turns into the response the client sees.
pub trait IntoResponse: Sized {
    /// The response this error surfaces as.
    spec fn spec_response(&self) -> ResponseV;

    fn into_response(self) -> (r: Response)
        ensures
            r@ == self.spec_response(),
    ;
}

/// The stable text of the "no such topic" error.
pub open spec fn not_found_msg(topic: Seq<char>) -> Seq<char> {
    "Topic "@ + topic + " not found"@
}

/// Builds the "no such topic" error text for a topic name.
pub(crate) fn not_found_message(topic_name: &str) -> (m: String)
    ensures
        m@ == not_found_msg(topic_name@),
{
    let mut m = String::from_str("Topic ");
    m.append(topic_name);
    m.append(" not found");
    m
}

/// Maps one request to its effect on the registry and its response, as
/// the protocol promises them: Ping answers Pong; AddTopic answers Ack,
/// or Nack without any change when the name is taken; ListTopics answers
/// the names; DeleteTopic, Publish and Unsubscribe answer Ack, or
/// `Error("Topic <t> not found")` without any change; Subscribe answers
/// the subscription stream, or that error. No request touches any topic
/// other than the one it names.
pub fn route_broker_request(request: Request, broker: &mut Broker) -> (r: BrokerResponse)
    requires
        old(broker).inv(),
        request matches Request::Publish { topic, payload } ==> old(broker).publish_ok(topic@),
    ensures
        final(broker).inv(),
        match request {
            Request::Ping => {
                &&& r matches BrokerResponse::BasicResponse(resp) && resp@ == ResponseV::Pong
                &&& *final(broker) == *old(broker)
            },
            Request::AddTopic { topic, retention } => if !old(broker).has_topic(topic@) {
                &&& r matches BrokerResponse::BasicResponse(resp) && resp@ == ResponseV::Ack
                &&& final(broker).has_topic(topic@)
                &&& fresh_topic(final(broker).spec_topic(topic@), topic@, retention)
                &&& forall|n: Seq<char>| n != topic@ ==> (#[trigger] final(broker).has_topic(n)
                    <==> old(broker).has_topic(n))
                &&& forall|n: Seq<char>| n != topic@ && #[trigger] old(broker).has_topic(n)
                    ==> final(broker).spec_topic(n) == old(broker).spec_topic(n)
            } else {
                &&& r matches BrokerResponse::BasicResponse(resp) && resp@ == ResponseV::Nack
                &&& *final(broker) == *old(broker)
            },
            Request::ListTopics => {
                &&& r matches BrokerResponse::BasicResponse(resp) && resp@ == (
                ResponseV::TopicsList { topics: old(broker).spec_topic_names() })
                &&& *final(broker) == *old(broker)
            },
            Request::DeleteTopic { topic } => if old(broker).has_topic(topic@) {
                &&& r matches BrokerResponse::BasicResponse(resp) && resp@ == ResponseV::Ack
                &&& !final(broker).has_topic(topic@)
                &&& forall|n: Seq<char>| n != topic@ ==> (#[trigger] final(broker).has_topic(n)
                    <==> old(broker).has_topic(n))
                &&& forall|n: Seq<char>| n != topic@ && #[trigger] old(broker).has_topic(n)
                    ==> final(broker).spec_topic(n) == old(broker).spec_topic(n)
            } else {
                &&& r matches BrokerResponse::BasicResponse(resp) && resp@ == (ResponseV::Error {
                    message: not_found_msg(topic@),
                })
                &&& *final(broker) == *old(broker)
            },
            Request::Publish { topic, payload } => if old(broker).has_topic(topic@) {
                &&& r matches BrokerResponse::BasicResponse(resp) && resp@ == ResponseV::Ack
                &&& final(broker).has_topic(topic@)
                &&& publish_post(
                    old(broker).spec_topic(topic@),
                    final(broker).spec_topic(topic@),
                    payload@,
                )
                &&& forall|n: Seq<char>| n != topic@ ==> (#[trigger] final(broker).has_topic(n)
                    <==> old(broker).has_topic(n))
                &&& forall|n: Seq<char>| n != topic@ && #[trigger] old(broker).has_topic(n)
                    ==> final(broker).spec_topic(n) == old(broker).spec_topic(n)
            } else {
                &&& r matches BrokerResponse::BasicResponse(resp) && resp@ == (ResponseV::Error {
                    message: not_found_msg(topic@),
                })
                &&& *final(broker) == *old(broker)
            },
            Request::Subscribe { topic, client_id, from_offset } => if old(broker).has_topic(
                topic@,
            ) {
                &&& r matches BrokerResponse::StreamedResponse(s) && s.topic_name@ == topic@
                    && records_view(s.replay@) == old(broker).spec_topic(topic@).spec_replay(
                    from_offset,
                )
                &&& final(broker).has_topic(topic@)
                &&& subscribe_post(
                    old(broker).spec_topic(topic@),
                    final(broker).spec_topic(topic@),
                    client_id,
                )
                &&& forall|n: Seq<char>| n != topic@ ==> (#[trigger] final(broker).has_topic(n)
                    <==> old(broker).has_topic(n))
                &&& forall|n: Seq<char>| n != topic@ && #[trigger] old(broker).has_topic(n)
                    ==> final(broker).spec_topic(n) == old(broker).spec_topic(n)
            } else {
                &&& r matches BrokerResponse::BasicResponse(resp) && resp@ == (ResponseV::Error {
                    message: not_found_msg(topic@),
                })
                &&& *final(broker) == *old(broker)
            },
            Request::Unsubscribe { topic, client_id } => if old(broker).has_topic(topic@) {
                &&& r matches BrokerResponse::BasicResponse(resp) && resp@ == ResponseV::Ack
                &&& final(broker).has_topic(topic@)
                &&& unsubscribe_post(
                    old(broker).spec_topic(topic@),
                    final(broker).spec_topic(topic@),
                    client_id,
                )
                &&& forall|n: Seq<char>| n != topic@ ==> (#[trigger] final(broker).has_topic(n)
                    <==> old(broker).has_topic(n))
                &&& forall|n: Seq<char>| n != topic@ && #[trigger] old(broker).has_topic(n)
                    ==> final(broker).spec_topic(n) == old(broker).spec_topic(n)
            } else {
                &&& r matches BrokerResponse::BasicResponse(resp) && resp@ == (ResponseV::Error {
                    message: not_found_msg(topic@),
                })
                &&& *final(broker) == *old(broker)
            },
        },
{
    match request {
        Request::Ping => handler::ping::handle_request(),
        Request::AddTopic { topic, retention } => unwrap_response(
            handler::add_topic::handle_request(topic, retention, broker),
        ),
        Request::ListTopics => handler::list_topics::handle_request(broker),
        Request::DeleteTopic { topic } => unwrap_response(
            handler::delete_topic::handle_request(topic, broker),
        ),
        Request::Publish { topic, payload } => unwrap_response(
            handler::publish::handle_request(topic, payload, broker),
        ),
        Request::Subscribe { topic, client_id, from_offset } => unwrap_response(
            handler::subscribe::handle_request(topic, client_id, from_offset, broker),
        ),
        Request::Unsubscribe { topic, client_id } => unwrap_response(
            handler::unsubscribe::handle_request(topic, client_id, broker),
        ),
    }
}

/// Hands a handler's success through and turns its error into the error's
/// response.
pub fn unwrap_response<E: IntoResponse>(maybe_response: Result<BrokerResponse, E>) -> (r:
    BrokerResponse)
    ensures
        match maybe_response {
            Ok(b) => r == b,
            Err(e) => r matches BrokerResponse::BasicResponse(resp) && resp@ == e.spec_response(),
        },
{
    match maybe_response {
        Ok(b) => b,
        Err(e) => BrokerResponse::BasicResponse(e.into_response()),
    }
}

} // verus!
