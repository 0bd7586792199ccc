//! Subscribe: opens a subscription with replay on the named topic.

use vstd::prelude::*;
use crate::broker::Broker;
use crate::protocol::response::ResponseV;
use crate::router::{BrokerResponse, IntoResponse, not_found_msg, not_found_message};
use crate::protocol::response::Response;
use crate::topic::{ClientId, TopicName, TopicSubscribeError, records_view, subscribe_post};

verus! {

/// Opens a subscription and hands back its stream: the retained records
/// from `from_offset` (0 when absent), then everything published while it
/// stays live. When no topic of that name exists, nothing changes and the
/// error surfaces as `Error("Topic <t> not found")`.
pub fn handle_request(
    topic_name: TopicName,
    client_id: ClientId,
    from_offset: Option<u64>,
    broker: &mut Broker,
) -> (r: Result<BrokerResponse, SubscribeError>)
    requires
        old(broker).inv(),
    ensures
        final(broker).inv(),
        r is Ok <==> old(broker).has_topic(topic_name@),
        match r {
            Ok(b) => {
                &&& b matches BrokerResponse::StreamedResponse(s) && s.topic_name@ == topic_name@
                    && records_view(s.replay@)
                    == old(broker).spec_topic(topic_name@).spec_replay(from_offset)
                &&& final(broker).has_topic(topic_name@)
                &&& subscribe_post(
                    old(broker).spec_topic(topic_name@),
                    final(broker).spec_topic(topic_name@),
                    client_id,
                )
                &&& forall|n: Seq<char>| n != topic_name@
                    ==> (#[trigger] final(broker).has_topic(n) <==> old(broker).has_topic(n))
                &&& forall|n: Seq<char>| n != topic_name@ && #[trigger] old(broker).has_topic(n)
                    ==> final(broker).spec_topic(n) == old(broker).spec_topic(n)
            },
            Err(e) => {
                &&& *final(broker) == *old(broker)
                &&& e.0@ == topic_name@
            },
        },
{
    match broker.subscribe(&topic_name, client_id, from_offset) {
        Ok(subscription) => Ok(BrokerResponse::StreamedResponse(subscription)),
        Err(e) => Err(SubscribeError::from(e)),
    }
}

/// The topic does not exist; surfaces as an Error response naming it.
pub struct SubscribeError(pub TopicName);

impl From<TopicSubscribeError> for SubscribeError {
    fn from(e: TopicSubscribeError) -> (r: SubscribeError) {
        match e {
            TopicSubscribeError::TopicNotFound(topic_name) => SubscribeError(topic_name),
        }
    }
}

impl vstd::std_specs::convert::FromSpecImpl<TopicSubscribeError> for SubscribeError {
    open spec fn obeys_from_spec() -> bool {
        true
    }

    open spec fn from_spec(e: TopicSubscribeError) -> SubscribeError {
        match e {
            TopicSubscribeError::TopicNotFound(topic_name) => SubscribeError(topic_name),
        }
    }
}

impl IntoResponse for SubscribeError {
    open spec fn spec_response(&self) -> ResponseV {
        ResponseV::Error { message: not_found_msg(self.0@) }
    }

    fn into_response(self) -> (r: Response) {
        Response::Error { message: not_found_message(self.0.as_str()) }
    }
}

} // verus!
