use vstd::prelude::*;

verus! {

/// The one message a streaming client sends: a subscription request.
#[derive(Debug)]
pub struct SubscribeMessage {
    pub action: String,
    pub playerid: String,
}

/// Every request is answered with a status code and a human-readable body.
#[derive(Debug)]
pub struct HTTPResponse {
    pub status: String,
    pub message: String,
}

/// The body of a cancellation request, before validation.
#[derive(Debug)]
pub struct RawCancelOrderData {
    pub card: String,
    pub direction: String,
}

/// The body of a limit-order request, before validation.
#[derive(Debug)]
pub struct RawOrderData {
    pub card: String,
    pub price: usize,
    pub direction: String,
}

/// The body of an administrative request.
#[derive(Debug)]
pub struct AdminRequest {
    pub action: String,
    pub players: String,
}

} // verus!
