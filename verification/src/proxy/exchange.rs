//! The exchange of requests and responses with one client: what is asked of
//! the hook, what goes to the target and what goes back, in which order.

use super::hook::InterceptedRequest;
use vstd::prelude::*;
use vstd::slice::slice_to_vec;

verus! {

/// What an exchange waits for.
#[derive(Debug)]
enum State {
    /// A request from the client.
    Request,
    /// The decision of the hook on a request.
    Verdict,
    /// The response to the request with this id.
    Response { id: u64 },
    /// The hook, while it looks at this response.
    Report { response: Vec<u8> },
    /// The client, while it takes a response.
    Write,
    /// Nothing: the exchange is over.
    Nothing,
}

/// What has happened.
#[derive(Debug)]
pub enum ExchangeEvent {
    /// A request has arrived.
    Request(Vec<u8>),
    /// The client has closed the stream instead.
    Closed,
    /// The hook has decided.
    Verdict(InterceptedRequest),
    /// The target has answered.
    Response(Vec<u8>),
    /// The hook has seen the response.
    Reported,
    /// The response has been written to the client.
    Written,
}

/// What to do next.
#[derive(Debug)]
pub enum ExchangeAction {
    /// Read a request from the client.
    Read,
    /// Ask the hook what becomes of this request.
    Ask(Vec<u8>),
    /// Send these bytes to the target.
    Send(Vec<u8>),
    /// Show the response to the request with this id to the hook.
    Report { id: u64, response: Vec<u8> },
    /// Write these bytes to the client.
    Write(Vec<u8>),
    /// End the connection.
    Close,
}

/// The contents of what an exchange waits for.
pub enum StateSpec {
    Request,
    Verdict,
    Response { id: u64 },
    Report { response: Seq<u8> },
    Write,
    Nothing,
}

/// The contents of an `ExchangeEvent`.
pub enum EventSpec {
    Request(Seq<u8>),
    Closed,
    Verdict { id: u64, bytes: Option<Seq<u8>> },
    Response(Seq<u8>),
    Reported,
    Written,
}

/// The contents of an `ExchangeAction`.
pub enum ActionSpec {
    Read,
    Ask(Seq<u8>),
    Send(Seq<u8>),
    Report { id: u64, response: Seq<u8> },
    Write(Seq<u8>),
    Close,
}

impl View for State {
    type V = StateSpec;

    closed spec fn view(&self) -> StateSpec {
        match *self {
            State::Request => StateSpec::Request,
            State::Verdict => StateSpec::Verdict,
            State::Response { id } => StateSpec::Response { id },
            State::Report { response } => StateSpec::Report { response: response@ },
            State::Write => StateSpec::Write,
            State::Nothing => StateSpec::Nothing,
        }
    }
}

impl View for ExchangeEvent {
    type V = EventSpec;

    open spec fn view(&self) -> EventSpec {
        match *self {
            ExchangeEvent::Request(request) => EventSpec::Request(request@),
            ExchangeEvent::Closed => EventSpec::Closed,
            ExchangeEvent::Verdict(verdict) => EventSpec::Verdict {
                id: verdict.id,
                bytes: match verdict.bytes {
                    Some(bytes) => Some(bytes@),
                    None => None,
                },
            },
            ExchangeEvent::Response(response) => EventSpec::Response(response@),
            ExchangeEvent::Reported => EventSpec::Reported,
            ExchangeEvent::Written => EventSpec::Written,
        }
    }
}

impl View for ExchangeAction {
    type V = ActionSpec;

    open spec fn view(&self) -> ActionSpec {
        match *self {
            ExchangeAction::Read => ActionSpec::Read,
            ExchangeAction::Ask(request) => ActionSpec::Ask(request@),
            ExchangeAction::Send(request) => ActionSpec::Send(request@),
            ExchangeAction::Report { id, response } => ActionSpec::Report {
                id,
                response: response@,
            },
            ExchangeAction::Write(response) => ActionSpec::Write(response@),
            ExchangeAction::Close => ActionSpec::Close,
        }
    }
}

/// Where an exchange goes when one request has been dealt with: on to the next
/// one in a tunnel, to its end otherwise.
pub open spec fn after_request(in_tunnel: bool) -> (StateSpec, ActionSpec) {
    if in_tunnel {
        (StateSpec::Request, ActionSpec::Read)
    } else {
        (StateSpec::Nothing, ActionSpec::Close)
    }
}

/// The next state and what to do after an event. An event that the state does not
/// wait for ends the exchange, as the client's leaving does.
pub open spec fn exchange_step(in_tunnel: bool, state: StateSpec, event: EventSpec) -> (
    StateSpec,
    ActionSpec,
) {
    match (state, event) {
        (StateSpec::Request, EventSpec::Request(request)) => (
            StateSpec::Verdict,
            ActionSpec::Ask(request),
        ),
        (StateSpec::Verdict, EventSpec::Verdict { id, bytes: Some(bytes) }) => (
            StateSpec::Response { id },
            ActionSpec::Send(bytes),
        ),
        (StateSpec::Verdict, EventSpec::Verdict { bytes: None, .. }) => after_request(in_tunnel),
        (StateSpec::Response { id }, EventSpec::Response(response)) => (
            StateSpec::Report { response },
            ActionSpec::Report { id, response },
        ),
        (StateSpec::Report { response }, EventSpec::Reported) => (
            StateSpec::Write,
            ActionSpec::Write(response),
        ),
        (StateSpec::Write, EventSpec::Written) => after_request(in_tunnel),
        _ => (StateSpec::Nothing, ActionSpec::Close),
    }
}

/// The exchange with one client. In a tunnel one request follows another; a
/// plain request is the only one of its connection.
#[derive(Debug)]
pub struct Exchange {
    in_tunnel: bool,
    state: State,
}

impl Exchange {
    /// Whether the exchange is one in a tunnel.
    pub closed spec fn in_tunnel(&self) -> bool {
        self.in_tunnel
    }

    /// What the exchange waits for.
    pub closed spec fn state(&self) -> StateSpec {
        self.state@
    }

    /// An exchange that waits for a request.
    pub fn new(in_tunnel: bool) -> (r: Self)
        ensures
            r.in_tunnel() == in_tunnel,
            r.state() == StateSpec::Request,
    {
        Exchange { in_tunnel, state: State::Request }
    }

    /// Goes on to the next request, or to the end.
    fn next_request(&mut self) -> (action: ExchangeAction)
        ensures
            final(self).in_tunnel() == old(self).in_tunnel(),
            (final(self).state(), action@) == after_request(old(self).in_tunnel()),
    {
        if self.in_tunnel {
            self.state = State::Request;
            ExchangeAction::Read
        } else {
            self.state = State::Nothing;
            ExchangeAction::Close
        }
    }

    /// Takes in what has happened and tells what to do next.
    pub fn step(&mut self, event: ExchangeEvent) -> (action: ExchangeAction)
        ensures
            final(self).in_tunnel() == old(self).in_tunnel(),
            (final(self).state(), action@) == exchange_step(
                old(self).in_tunnel(),
                old(self).state(),
                event@,
            ),
    {
        let mut state = State::Nothing;
        std::mem::swap(&mut state, &mut self.state);
        match (state, event) {
            (State::Request, ExchangeEvent::Request(request)) => {
                self.state = State::Verdict;
                ExchangeAction::Ask(request)
            },
            (State::Verdict, ExchangeEvent::Verdict(verdict)) => match verdict.bytes {
                Some(bytes) => {
                    self.state = State::Response { id: verdict.id };
                    ExchangeAction::Send(bytes)
                },
                None => self.next_request(),
            },
            (State::Response { id }, ExchangeEvent::Response(response)) => {
                let shown = slice_to_vec(response.as_slice());
                self.state = State::Report { response };
                ExchangeAction::Report { id, response: shown }
            },
            (State::Report { response }, ExchangeEvent::Reported) => {
                self.state = State::Write;
                ExchangeAction::Write(response)
            },
            (State::Write, ExchangeEvent::Written) => self.next_request(),
            _ => ExchangeAction::Close,
        }
    }
}

/// The actions that a series of events leads to, from `state` on.
pub open spec fn exchange_run(
    in_tunnel: bool,
    state: StateSpec,
    events: Seq<EventSpec>,
) -> Seq<ActionSpec>
    decreases events.len(),
{
    if events.len() == 0 {
        Seq::empty()
    } else {
        let (next, action) = exchange_step(in_tunnel, state, events[0]);
        seq![action] + exchange_run(in_tunnel, next, events.drop_first())
    }
}

/// A request that the hook lets through, edited or not, goes to the target as
/// the hook returned it; the response is shown to the hook under the id of that
/// request and then goes to the client unchanged.
pub proof fn law_request_is_relayed(
    in_tunnel: bool,
    request: Seq<u8>,
    id: u64,
    sent: Seq<u8>,
    response: Seq<u8>,
)
    ensures
        exchange_run(
            in_tunnel,
            StateSpec::Request,
            seq![
                EventSpec::Request(request),
                EventSpec::Verdict { id, bytes: Some(sent) },
                EventSpec::Response(response),
                EventSpec::Reported,
                EventSpec::Written,
            ],
        ) == seq![
            ActionSpec::Ask(request),
            ActionSpec::Send(sent),
            ActionSpec::Report { id, response },
            ActionSpec::Write(response),
            after_request(in_tunnel).1,
        ],
{
    let events = seq![
        EventSpec::Request(request),
        EventSpec::Verdict { id, bytes: Some(sent) },
        EventSpec::Response(response),
        EventSpec::Reported,
        EventSpec::Written,
    ];
    let e1 = events.drop_first();
    let e2 = e1.drop_first();
    let e3 = e2.drop_first();
    let e4 = e3.drop_first();
    reveal_with_fuel(exchange_run, 6);
    assert(e4.drop_first() == Seq::<EventSpec>::empty());
    assert(exchange_run(in_tunnel, StateSpec::Request, events) == seq![
        ActionSpec::Ask(request),
        ActionSpec::Send(sent),
        ActionSpec::Report { id, response },
        ActionSpec::Write(response),
        after_request(in_tunnel).1,
    ]);
}

/// The state of an exchange after a series of events.
pub open spec fn state_after(
    in_tunnel: bool,
    state: StateSpec,
    events: Seq<EventSpec>,
) -> StateSpec
    decreases events.len(),
{
    if events.len() == 0 {
        state
    } else {
        exchange_step(in_tunnel, state_after(in_tunnel, state, events.drop_last()), events.last()).0
    }
}

/// Whatever has happened before, in whatever order: bytes go to the target only if
/// the hook has just released exactly these bytes; a response is shown to the hook
/// only as it has just arrived, and under the id of the request that was released
/// before; and what goes to the client is the response that arrived last, once the
/// hook has seen it. In particular a dropped request is never sent.
pub proof fn law_hook_sees_everything(in_tunnel: bool, events: Seq<EventSpec>)
    requires
        events.len() > 0,
    ensures
        ({
            let n = events.len();
            let before = state_after(in_tunnel, StateSpec::Request, events.drop_last());
            match exchange_step(in_tunnel, before, events.last()).1 {
                ActionSpec::Send(bytes) => events.last() matches EventSpec::Verdict {
                    bytes: Some(released),
                    ..
                } && released == bytes,
                ActionSpec::Report { id, response } => {
                    &&& events.last() == EventSpec::Response(response)
                    &&& n >= 2
                    &&& events[n - 2] matches EventSpec::Verdict { id: released, bytes: Some(_) }
                    &&& released == id
                },
                ActionSpec::Write(response) => {
                    &&& events.last() == EventSpec::Reported
                    &&& n >= 2
                    &&& events[n - 2] == EventSpec::Response(response)
                },
                _ => true,
            }
        }),
        events.last() matches EventSpec::Verdict { bytes: None, .. } ==> !(exchange_step(
            in_tunnel,
            state_after(in_tunnel, StateSpec::Request, events.drop_last()),
            events.last(),
        ).1 is Send),
{
    let earlier = events.drop_last();
    reveal_with_fuel(state_after, 2);
    if earlier.len() > 0 {
        assert(earlier.last() == events[events.len() - 2]);
    }
}

} // verus!
