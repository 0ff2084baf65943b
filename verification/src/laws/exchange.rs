//! Laws of the exchange with one client.

use crate::proxy::exchange::{Exchange, ExchangeAction, ExchangeEvent, StateSpec};
use crate::proxy::hook::{InterceptHook, InterceptedRequest, PassThrough};
use vstd::prelude::*;

verus! {

/// Whether an action hands on the bytes of a request to the hook.
pub open spec fn asks(action: ExchangeAction, bytes: Seq<u8>) -> bool {
    action matches ExchangeAction::Ask(request) && request@ == bytes
}

/// Whether an action sends bytes to the target.
pub open spec fn sends(action: ExchangeAction, bytes: Seq<u8>) -> bool {
    action matches ExchangeAction::Send(request) && request@ == bytes
}

/// Whether an action shows a response to the hook.
pub open spec fn reports(action: ExchangeAction, id: u64, bytes: Seq<u8>) -> bool {
    action matches ExchangeAction::Report { id: shown, response } && shown == id && response@
        == bytes
}

/// Whether an action writes bytes to the client.
pub open spec fn writes(action: ExchangeAction, bytes: Seq<u8>) -> bool {
    action matches ExchangeAction::Write(response) && response@ == bytes
}

/// Whether an action goes on to the next request of a tunnel, or ends a connection
/// that is none.
pub open spec fn goes_on(action: ExchangeAction, in_tunnel: bool) -> bool {
    if in_tunnel {
        action is Read
    } else {
        action is Close
    }
}

/// From a request to its response: the hook is asked about the request as it arrived,
/// the target gets what the hook released, the hook sees the response as it arrived and
/// under the id that it gave the request, and the client gets that response. Then the
/// next request of a tunnel is dealt with in the same way, and any other connection ends.
pub proof fn law_request_and_response(
    in_tunnel: bool,
    begun: Exchange,
    first: &mut Exchange,
    request: Vec<u8>,
    asked: ExchangeAction,
    second: &mut Exchange,
    verdict: InterceptedRequest,
    sent: ExchangeAction,
    third: &mut Exchange,
    response: Vec<u8>,
    reported: ExchangeAction,
    fourth: &mut Exchange,
    written: ExchangeAction,
    fifth: &mut Exchange,
    over: ExchangeAction,
    sixth: &mut Exchange,
    another: Vec<u8>,
    asked_again: ExchangeAction,
)
    requires
        call_ensures(Exchange::new, (in_tunnel,), begun),
        *old(first) == begun,
        call_ensures(Exchange::step, (first, ExchangeEvent::Request(request)), asked),
        *old(second) == *final(first),
        call_ensures(Exchange::step, (second, ExchangeEvent::Verdict(verdict)), sent),
        *old(third) == *final(second),
        call_ensures(Exchange::step, (third, ExchangeEvent::Response(response)), reported),
        *old(fourth) == *final(third),
        call_ensures(Exchange::step, (fourth, ExchangeEvent::Reported), written),
        *old(fifth) == *final(fourth),
        call_ensures(Exchange::step, (fifth, ExchangeEvent::Written), over),
        *old(sixth) == *final(fifth),
        call_ensures(Exchange::step, (sixth, ExchangeEvent::Request(another)), asked_again),
        verdict.bytes is Some,
    ensures
        asks(asked, request@),
        sends(sent, (verdict.bytes->0)@),
        reports(reported, verdict.id, response@),
        writes(written, response@),
        goes_on(over, in_tunnel),
        in_tunnel ==> asks(asked_again, another@),
        !in_tunnel ==> asked_again is Close,
{
}

/// A request that the hook drops is not sent: the next one of a tunnel is dealt with,
/// and any other connection ends.
pub proof fn law_dropped_request(
    in_tunnel: bool,
    begun: Exchange,
    first: &mut Exchange,
    request: Vec<u8>,
    asked: ExchangeAction,
    second: &mut Exchange,
    verdict: InterceptedRequest,
    over: ExchangeAction,
    third: &mut Exchange,
    another: Vec<u8>,
    asked_again: ExchangeAction,
)
    requires
        call_ensures(Exchange::new, (in_tunnel,), begun),
        *old(first) == begun,
        call_ensures(Exchange::step, (first, ExchangeEvent::Request(request)), asked),
        *old(second) == *final(first),
        call_ensures(Exchange::step, (second, ExchangeEvent::Verdict(verdict)), over),
        *old(third) == *final(second),
        call_ensures(Exchange::step, (third, ExchangeEvent::Request(another)), asked_again),
        verdict.bytes is None,
    ensures
        goes_on(over, in_tunnel),
        in_tunnel ==> asks(asked_again, another@),
        !in_tunnel ==> asked_again is Close,
{
}

/// Whether an exchange waits for an event of this kind.
pub open spec fn awaits(state: StateSpec, event: ExchangeEvent) -> bool {
    match event {
        ExchangeEvent::Request(_) => state is Request,
        ExchangeEvent::Verdict(_) => state is Verdict,
        ExchangeEvent::Response(_) => state is Response,
        ExchangeEvent::Reported => state is Report,
        ExchangeEvent::Written => state is Write,
        ExchangeEvent::Closed => false,
    }
}

/// In any state an exchange takes exactly one kind of event. It goes on with it, keeping
/// the id of a released request for its response and the response for the client, and
/// with any other event, the client's leaving among them, it closes the connection for
/// good.
pub proof fn law_events_in_turn(
    exchange: &mut Exchange,
    event: ExchangeEvent,
    action: ExchangeAction,
    later: &mut Exchange,
    later_event: ExchangeEvent,
    later_action: ExchangeAction,
)
    requires
        call_ensures(Exchange::step, (exchange, event), action),
        *old(later) == *final(exchange),
        call_ensures(Exchange::step, (later, later_event), later_action),
    ensures
        !awaits(old(exchange).state(), event) ==> action is Close,
        action is Close ==> later_action is Close,
        awaits(old(exchange).state(), event) ==> match event {
            ExchangeEvent::Request(request) => asks(action, request@),
            ExchangeEvent::Verdict(verdict) => match verdict.bytes {
                Some(bytes) => {
                    &&& sends(action, bytes@)
                    &&& final(exchange).state() matches StateSpec::Response { id } && id
                        == verdict.id
                },
                None => goes_on(action, old(exchange).in_tunnel()),
            },
            ExchangeEvent::Response(response) => {
                &&& old(exchange).state() matches StateSpec::Response { id } && reports(
                    action,
                    id,
                    response@,
                )
                &&& final(exchange).state() matches StateSpec::Report { response: kept } && kept
                    == response@
            },
            ExchangeEvent::Reported => old(exchange).state() matches StateSpec::Report {
                response,
            } && writes(action, response),
            ExchangeEvent::Written => goes_on(action, old(exchange).in_tunnel()),
            ExchangeEvent::Closed => true,
        },
        action is Read ==> final(exchange).state() is Request,
        action is Ask ==> final(exchange).state() is Verdict,
        action is Send ==> final(exchange).state() is Response,
        action is Report ==> final(exchange).state() is Report,
        action is Write ==> final(exchange).state() is Write,
        final(exchange).in_tunnel() == old(exchange).in_tunnel(),
{
}

/// The hook that lets everything through releases every request as it is.
pub proof fn law_pass_through(
    hook: &PassThrough,
    host: &str,
    port: u16,
    request: &[u8],
    r: InterceptedRequest,
)
    requires
        call_ensures(<PassThrough as InterceptHook>::on_request, (hook, host, port, request), r),
    ensures
        r.id == 0,
        r.bytes matches Some(bytes) && bytes@ == request@,
{
}

} // verus!
