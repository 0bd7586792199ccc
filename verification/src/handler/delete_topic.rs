//! DeleteTopic: removes the topic, or reports that it does not exist.

use vstd::prelude::*;
use crate::broker::Broker;
use crate::protocol::response::{Response, ResponseV};
use crate::router::{BrokerResponse, IntoResponse, not_found_msg, not_found_message};
use crate::topic::TopicName;

verus! {

/// Removes the topic and answers Ack; when no topic of that name exists,
/// nothing changes and the error surfaces as `Error("Topic <t> not
/// found")`.
pub fn handle_request(topic_name: TopicName, broker: &mut Broker) -> (r: Result<
    BrokerResponse,
    DeleteTopicError,
>)
    requires
        old(broker).inv(),
    ensures
        final(broker).inv(),
        r is Ok <==> old(broker).has_topic(topic_name@),
        match r {
            Ok(b) => {
                &&& b matches BrokerResponse::BasicResponse(resp) && resp@ == ResponseV::Ack
                &&& !final(broker).has_topic(topic_name@)
                &&& forall|n: Seq<char>| n != topic_name@
                    ==> (#[trigger] final(broker).has_topic(n) <==> old(broker).has_topic(n))
                &&& forall|n: Seq<char>| n != topic_name@ && #[trigger] old(broker).has_topic(n)
                    ==> final(broker).spec_topic(n) == old(broker).spec_topic(n)
            },
            Err(e) => {
                &&& *final(broker) == *old(broker)
                &&& e.0@ == topic_name@
            },
        },
{
    let is_topic_deleted = broker.delete_topic(&topic_name);
    if is_topic_deleted {
        Ok(BrokerResponse::BasicResponse(Response::Ack))
    } else {
        Err(DeleteTopicError(topic_name))
    }
}

/// The topic does not exist; surfaces as an Error response naming it.
pub struct DeleteTopicError(pub TopicName);

impl IntoResponse for DeleteTopicError {
    open spec fn spec_response(&self) -> ResponseV {
        ResponseV::Error { message: not_found_msg(self.0@) }
    }

    fn into_response(self) -> (r: Response) {
        Response::Error { message: not_found_message(self.0.as_str()) }
    }
}

} // verus!
