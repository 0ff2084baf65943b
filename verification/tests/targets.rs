use gost_upstream::proxy::target::{
    classify, parse_absolute_uri, parse_connect_target, ClientRequest, ConnectTargetError,
    TUNNEL_REPLY,
};

#[test]
fn connect_targets() {
    assert_eq!(parse_connect_target("example.com:443"), Ok(("example.com".to_string(), 443)));
    assert_eq!(parse_connect_target("[::1]:8443"), Ok(("[::1]".to_string(), 8443)));
    assert_eq!(parse_connect_target(":0"), Ok((String::new(), 0)));
    assert_eq!(parse_connect_target("хост:65535"), Ok(("хост".to_string(), 65535)));
}

#[test]
fn bad_connect_targets() {
    assert_eq!(parse_connect_target("example.com"), Err(ConnectTargetError::NoPort));
    assert_eq!(parse_connect_target(""), Err(ConnectTargetError::NoPort));
    assert_eq!(parse_connect_target("example.com:"), Err(ConnectTargetError::BadPort));
    assert_eq!(parse_connect_target("example.com:65536"), Err(ConnectTargetError::BadPort));
    assert_eq!(parse_connect_target("example.com:https"), Err(ConnectTargetError::BadPort));
}

fn uri(text: &str) -> Option<(String, u16, String)> {
    parse_absolute_uri(text)
}

#[test]
fn absolute_uris() {
    assert_eq!(uri("http://a/"), Some(("a".to_string(), 80, "/".to_string())));
    assert_eq!(uri("http://a"), Some(("a".to_string(), 80, "/".to_string())));
    assert_eq!(
        uri("http://a:8080/x/y?z=http://b:1/"),
        Some(("a".to_string(), 8080, "/x/y?z=http://b:1/".to_string()))
    );
    assert_eq!(uri("http://"), Some((String::new(), 80, "/".to_string())));
    assert_eq!(uri("http://[::1]:81"), Some(("[::1]".to_string(), 81, "/".to_string())));
}

#[test]
fn bad_absolute_uris() {
    assert_eq!(uri("https://a/"), None);
    assert_eq!(uri("HTTP://a/"), None);
    assert_eq!(uri("/path"), None);
    assert_eq!(uri("http:/"), None);
    assert_eq!(uri("http://a:port/"), None);
    assert_eq!(uri("http://a:/"), None);
}

#[test]
fn first_lines() {
    match classify("CONNECT example.com:443 HTTP/1.1\r\n") {
        ClientRequest::Connect { target } => assert_eq!(target, "example.com:443"),
        other => panic!("unexpected request {other:?}"),
    }
    match classify("GET http://a/ HTTP/1.1\r\n") {
        ClientRequest::Plain { method, target } => {
            assert_eq!(method, "GET");
            assert_eq!(target, "http://a/");
        }
        other => panic!("unexpected request {other:?}"),
    }
    match classify("connect x") {
        ClientRequest::Plain { method, target } => {
            assert_eq!(method, "connect");
            assert_eq!(target, "x");
        }
        other => panic!("unexpected request {other:?}"),
    }
    assert!(matches!(classify(""), ClientRequest::Nothing));
    assert!(matches!(classify("\r\n"), ClientRequest::Nothing));
    assert!(matches!(classify("CONNECT"), ClientRequest::Connect { target } if target.is_empty()));
}

#[test]
fn tunnel_reply_is_a_blank_success() {
    assert_eq!(TUNNEL_REPLY, "HTTP/1.1 200 Connection Established\r\n\r\n");
}
