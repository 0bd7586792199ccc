//! Publish: appends a payload to the named topic and fans it out.

use vstd::prelude::*;
use crate::broker::Broker;
use crate::protocol::response::{Response, ResponseV};
use crate::router::{BrokerResponse, IntoResponse, not_found_msg, not_found_message};
use crate::topic::{TopicName, TopicPublishError, publish_post};

verus! {

/// Publishes the payload and answers Ack; when no topic of that name
/// exists, nothing changes and the error surfaces as `Error("Topic <t>
/// not found")`.
pub fn handle_request(topic: TopicName, payload: Vec<u8>, broker: &mut Broker) -> (r: Result<
    BrokerResponse,
    PublishError,
>)
    requires
        old(broker).inv(),
        old(broker).publish_ok(topic@),
    ensures
        final(broker).inv(),
        r is Ok <==> old(broker).has_topic(topic@),
        match r {
            Ok(b) => {
                &&& b matches BrokerResponse::BasicResponse(resp) && resp@ == ResponseV::Ack
                &&& final(broker).has_topic(topic@)
                &&& publish_post(
                    old(broker).spec_topic(topic@),
                    final(broker).spec_topic(topic@),
                    payload@,
                )
                &&& forall|n: Seq<char>| n != topic@
                    ==> (#[trigger] final(broker).has_topic(n) <==> old(broker).has_topic(n))
                &&& forall|n: Seq<char>| n != topic@ && #[trigger] old(broker).has_topic(n)
                    ==> final(broker).spec_topic(n) == old(broker).spec_topic(n)
            },
            Err(e) => {
                &&& *final(broker) == *old(broker)
                &&& e.0@ == topic@
            },
        },
{
    match broker.publish(&topic, payload) {
        Ok(()) => Ok(BrokerResponse::BasicResponse(Response::Ack)),
        Err(e) => Err(PublishError::from(e)),
    }
}

/// The topic does not exist; surfaces as an Error response naming it.
pub struct PublishError(pub TopicName);

impl From<TopicPublishError> for PublishError {
    fn from(e: TopicPublishError) -> (r: PublishError) {
        match e {
            TopicPublishError::TopicNotFound(topic_name) => PublishError(topic_name),
        }
    }
}

impl vstd::std_specs::convert::FromSpecImpl<TopicPublishError> for PublishError {
    open spec fn obeys_from_spec() -> bool {
        true
    }

    open spec fn from_spec(e: TopicPublishError) -> PublishError {
        match e {
            TopicPublishError::TopicNotFound(topic_name) => PublishError(topic_name),
        }
    }
}

impl IntoResponse for PublishError {
    open spec fn spec_response(&self) -> ResponseV {
        ResponseV::Error { message: not_found_msg(self.0@) }
    }

    fn into_response(self) -> (r: Response) {
        Response::Error { message: not_found_message(self.0.as_str()) }
    }
}

} // verus!
