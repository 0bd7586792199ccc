//! Ping: answered with Pong, nothing consulted.

use vstd::prelude::*;
use crate::protocol::response::{Response, ResponseV};
use crate::router::BrokerResponse;

verus! {

pub fn handle_request() -> (r: BrokerResponse)
    ensures
        r matches BrokerResponse::BasicResponse(resp) && resp@ == ResponseV::Pong,
{
    BrokerResponse::BasicResponse(Response::Pong)
}

} // verus!
