//! ListTopics: a snapshot of the registered names.

use vstd::prelude::*;
use crate::broker::Broker;
use crate::protocol::response::{Response, ResponseV};
use crate::router::BrokerResponse;

verus! {

pub fn handle_request(broker: &Broker) -> (r: BrokerResponse)
    ensures
        r matches BrokerResponse::BasicResponse(resp) && resp@ == (ResponseV::TopicsList {
            topics: broker.spec_topic_names(),
        }),
{
    let topics = broker.list_topics();
    BrokerResponse::BasicResponse(Response::TopicsList { topics })
}

} // verus!
