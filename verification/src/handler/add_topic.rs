//! AddTopic: creates the topic, or refuses when the name is taken.

use vstd::prelude::*;
use crate::broker::Broker;
use crate::protocol::response::{Response, ResponseV};
use crate::router::{BrokerResponse, IntoResponse};
use crate::topic::{TopicName, fresh_topic};

verus! {

/// Creates the topic and answers Ack; when a topic of that name already
/// exists, nothing changes — not even the existing topic's retention or
/// log — and the error surfaces as Nack.
pub fn handle_request(topic_name: TopicName, retention: u64, broker: &mut Broker) -> (r: Result<
    BrokerResponse,
    AddTopicError,
>)
    requires
        old(broker).inv(),
    ensures
        final(broker).inv(),
        r is Ok <==> !old(broker).has_topic(topic_name@),
        match r {
            Ok(b) => {
                &&& b matches BrokerResponse::BasicResponse(resp) && resp@ == ResponseV::Ack
                &&& final(broker).has_topic(topic_name@)
                &&& fresh_topic(final(broker).spec_topic(topic_name@), topic_name@, retention)
                &&& forall|n: Seq<char>| n != topic_name@
                    ==> (#[trigger] final(broker).has_topic(n) <==> old(broker).has_topic(n))
                &&& forall|n: Seq<char>| n != topic_name@ && #[trigger] old(broker).has_topic(n)
                    ==> final(broker).spec_topic(n) == old(broker).spec_topic(n)
            },
            Err(e) => {
                &&& *final(broker) == *old(broker)
                &&& e.0@ == topic_name@
            },
        },
{
    let is_topic_added = broker.add_topic(&topic_name, retention);
    if is_topic_added {
        Ok(BrokerResponse::BasicResponse(Response::Ack))
    } else {
        Err(AddTopicError(topic_name))
    }
}

/// The topic already exists; surfaces as Nack.
pub struct AddTopicError(pub TopicName);

impl IntoResponse for AddTopicError {
    open spec fn spec_response(&self) -> ResponseV {
        ResponseV::Nack
    }

    fn into_response(self) -> (r: Response) {
        Response::Nack
    }
}

} // verus!
