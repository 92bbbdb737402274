//! The hub's client of the store.
use vstd::prelude::*;

use crate::common::StoreResponse;
use crate::hub::LocalRouterMsg;

verus! {

/// What the store's answer means for the router: a published message is passed on; retained
/// messages are dropped.
pub fn on_response(response: StoreResponse) -> (r: Option<LocalRouterMsg>)
    ensures
        r == (match response {
            StoreResponse::Publish(user_id, packet) => Some(
                LocalRouterMsg::Publish(user_id, packet),
            ),
            StoreResponse::Retains(..) => None,
        }),
{
    match response {
        StoreResponse::Publish(user_id, packet) => Some(LocalRouterMsg::Publish(user_id, packet)),
        StoreResponse::Retains(_, _, _, _) => None,
    }
}

} // verus!
