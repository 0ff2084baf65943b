use vstd::prelude::*;
use vstd::slice::slice_to_vec;

verus! {

/// The point where somebody can watch or hold up the traffic. An
/// implementation is called from the thread that holds the connection with the
/// client, so it may block: that is how a request is paused.
pub trait InterceptHook: Send + Sync {
    /// A request is ready to go to its target. The `id` of the answer comes
    /// back in `on_response`, so that an implementation can tell which request
    /// a response belongs to.
    fn on_request(&self, host: &str, port: u16, request: &[u8]) -> InterceptedRequest;

    /// The response to the request with this `id` has arrived.
    fn on_response(&self, id: u64, host: &str, port: u16, response: &[u8]);
}

/// What becomes of an intercepted request.
#[derive(Debug)]
pub struct InterceptedRequest {
    pub id: u64,
    /// `Some(bytes)`: send exactly these bytes, edited or not. `None`: do not
    /// send anything.
    pub bytes: Option<Vec<u8>>,
}

/// Lets everything through unchanged.
#[derive(Debug)]
pub struct PassThrough;

impl InterceptHook for PassThrough {
    fn on_request(&self, _host: &str, _port: u16, request: &[u8]) -> (r: InterceptedRequest)
        ensures
            r.id == 0,
            r.bytes matches Some(bytes) && bytes@ == request@,
    {
        InterceptedRequest { id: 0, bytes: Some(slice_to_vec(request)) }
    }

    fn on_response(&self, _id: u64, _host: &str, _port: u16, _response: &[u8]) {
    }
}

} // verus!
