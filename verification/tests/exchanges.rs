use gost_upstream::proxy::exchange::{Exchange, ExchangeAction, ExchangeEvent};
use gost_upstream::proxy::hook::{InterceptHook, InterceptedRequest, PassThrough};

fn verdict(id: u64, bytes: Option<&[u8]>) -> ExchangeEvent {
    ExchangeEvent::Verdict(InterceptedRequest { id, bytes: bytes.map(|bytes| bytes.to_vec()) })
}

#[test]
fn pass_through_changes_nothing() {
    let verdict = PassThrough.on_request("h", 443, b"GET");
    assert_eq!(verdict.id, 0);
    assert_eq!(verdict.bytes, Some(b"GET".to_vec()));
    PassThrough.on_response(0, "h", 443, b"200");
}

#[test]
fn tunnel_relays_one_request_after_the_other() {
    let mut exchange = Exchange::new(true);
    for id in [7, 8] {
        let action = exchange.step(ExchangeEvent::Request(b"request".to_vec()));
        assert!(matches!(action, ExchangeAction::Ask(bytes) if bytes == b"request"));
        let action = exchange.step(verdict(id, Some(b"edited")));
        assert!(matches!(action, ExchangeAction::Send(bytes) if bytes == b"edited"));
        let action = exchange.step(ExchangeEvent::Response(b"response".to_vec()));
        match action {
            ExchangeAction::Report { id: reported, response } => {
                assert_eq!(reported, id);
                assert_eq!(response, b"response".to_vec());
            }
            other => panic!("unexpected action {other:?}"),
        }
        let action = exchange.step(ExchangeEvent::Reported);
        assert!(matches!(action, ExchangeAction::Write(bytes) if bytes == b"response"));
        assert!(matches!(exchange.step(ExchangeEvent::Written), ExchangeAction::Read));
    }
    assert!(matches!(exchange.step(ExchangeEvent::Closed), ExchangeAction::Close));
}

#[test]
fn dropped_request_leaves_the_tunnel_open() {
    let mut exchange = Exchange::new(true);
    exchange.step(ExchangeEvent::Request(b"request".to_vec()));
    assert!(matches!(exchange.step(verdict(1, None)), ExchangeAction::Read));
    let action = exchange.step(ExchangeEvent::Request(b"next".to_vec()));
    assert!(matches!(action, ExchangeAction::Ask(bytes) if bytes == b"next"));
}

#[test]
fn plain_connection_carries_one_request() {
    let mut exchange = Exchange::new(false);
    exchange.step(ExchangeEvent::Request(b"request".to_vec()));
    exchange.step(verdict(1, Some(b"request")));
    exchange.step(ExchangeEvent::Response(b"response".to_vec()));
    exchange.step(ExchangeEvent::Reported);
    assert!(matches!(exchange.step(ExchangeEvent::Written), ExchangeAction::Close));
}

#[test]
fn dropped_plain_request_ends_the_connection() {
    let mut exchange = Exchange::new(false);
    exchange.step(ExchangeEvent::Request(b"request".to_vec()));
    assert!(matches!(exchange.step(verdict(1, None)), ExchangeAction::Close));
}

#[test]
fn unexpected_event_ends_the_exchange() {
    let mut exchange = Exchange::new(true);
    assert!(matches!(exchange.step(ExchangeEvent::Reported), ExchangeAction::Close));
    let action = exchange.step(ExchangeEvent::Request(b"request".to_vec()));
    assert!(matches!(action, ExchangeAction::Close));
    let mut exchange = Exchange::new(true);
    exchange.step(ExchangeEvent::Request(b"request".to_vec()));
    let action = exchange.step(ExchangeEvent::Response(b"response".to_vec()));
    assert!(matches!(action, ExchangeAction::Close));
}
