//! Unsubscribe: ends a subscription on the named topic.

use vstd::prelude::*;
use crate::broker::Broker;
use crate::protocol::response::{Response, ResponseV};
use crate::router::{BrokerResponse, IntoResponse, not_found_msg, not_found_message};
use crate::topic::{ClientId, TopicName, TopicSubscribeError, unsubscribe_post};

verus! {

/// Ends the subscription and answers Ack; no record published afterwards
/// reaches the client's queue. When no topic of that name exists, nothing
/// changes and the error surfaces as `Error("Topic <t> not found")`.
pub fn handle_request(topic_name: TopicName, client_id: ClientId, broker: &mut Broker) -> (r:
    Result<BrokerResponse, UnsubscribeError>)
    requires
        old(broker).inv(),
    ensures
        final(broker).inv(),
        r is Ok <==> old(broker).has_topic(topic_name@),
        match r {
            Ok(b) => {
                &&& b matches BrokerResponse::BasicResponse(resp) && resp@ == ResponseV::Ack
                &&& final(broker).has_topic(topic_name@)
                &&& unsubscribe_post(
                    old(broker).spec_topic(topic_name@),
                    final(broker).spec_topic(topic_name@),
                    client_id,
                )
                &&& forall|n: Seq<char>| n != topic_name@
                    ==> (#[trigger] final(broker).has_topic(n) <==> old(broker).has_topic(n))
                &&& forall|n: Seq<char>| n != topic_name@ && #[trigger] old(broker).has_topic(n)
                    ==> final(broker).spec_topic(n) == old(broker).spec_topic(n)
            },
            Err(e) => {
                &&& *final(broker) == *old(broker)
                &&& e.0@ == topic_name@
            },
        },
{
    match broker.unsubscribe(&topic_name, client_id) {
        Ok(()) => Ok(BrokerResponse::BasicResponse(Response::Ack)),
        Err(e) => Err(UnsubscribeError::from(e)),
    }
}

/// The topic does not exist; surfaces as an Error response naming it.
pub struct UnsubscribeError(pub TopicName);

impl From<TopicSubscribeError> for UnsubscribeError {
    fn from(e: TopicSubscribeError) -> (r: UnsubscribeError) {
        match e {
            TopicSubscribeError::TopicNotFound(topic_name) => UnsubscribeError(topic_name),
        }
    }
}

impl vstd::std_specs::convert::FromSpecImpl<TopicSubscribeError> for UnsubscribeError {
    open spec fn obeys_from_spec() -> bool {
        true
    }

    open spec fn from_spec(e: TopicSubscribeError) -> UnsubscribeError {
        match e {
            TopicSubscribeError::TopicNotFound(topic_name) => UnsubscribeError(topic_name),
        }
    }
}

impl IntoResponse for UnsubscribeError {
    open spec fn spec_response(&self) -> ResponseV {
        ResponseV::Error { message: not_found_msg(self.0@) }
    }

    fn into_response(self) -> (r: Response) {
        Response::Error { message: not_found_message(self.0.as_str()) }
    }
}

} // verus!
