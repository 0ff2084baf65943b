//! What a client asks the proxy for: the first line of a connection and the
//! targets in it.

use crate::numerals::{decimal, is_decimal_digit, law_decimal_denotes, parse_unsigned, unsigned};
use crate::scan::{
    after_last_where, equals, first_where, lemma_after_last_where_is, lemma_first_where_is,
};
use crate::text::{after_first_word, chars_of, first_two_words, first_word};
use vstd::prelude::*;
use vstd::slice::slice_subrange;

verus! {

/// A host and a port.
pub struct Endpoint {
    pub host: Seq<char>,
    pub port: u16,
}

/// Why the target of a `CONNECT` request is not usable.
#[derive(Debug, Clone, Copy, PartialEq, Eq)]
pub enum ConnectTargetError {
    /// There is no colon in it.
    NoPort,
    /// What follows the last colon is not a port number.
    BadPort,
}

/// The port that some text denotes.
pub open spec fn port_of(text: Seq<char>) -> Option<u16> {
    match unsigned(text, u16::MAX as nat) {
        Some(n) => Some(n as u16),
        None => None,
    }
}

/// The endpoint `host:port`, split at the last colon.
pub open spec fn connect_endpoint(target: Seq<char>) -> Result<Endpoint, ConnectTargetError> {
    let port_start = after_last_where(target, equals(':'));
    if port_start == 0 {
        Err(ConnectTargetError::NoPort)
    } else {
        match port_of(target.skip(port_start)) {
            Some(port) => Ok(Endpoint { host: target.take(port_start - 1), port }),
            None => Err(ConnectTargetError::BadPort),
        }
    }
}

/// The part of an absolute URI in front of its path.
pub open spec fn authority_of(rest: Seq<char>) -> Seq<char> {
    rest.take(first_where(rest, equals('/')))
}

/// The path of an absolute URI, `/` if it has none.
pub open spec fn path_of(rest: Seq<char>) -> Seq<char> {
    let slash = first_where(rest, equals('/'));
    if slash < rest.len() {
        rest.skip(slash)
    } else {
        "/"@
    }
}

/// The endpoint of an authority, on port 80 unless it names one.
pub open spec fn authority_endpoint(authority: Seq<char>) -> Option<Endpoint> {
    let port_start = after_last_where(authority, equals(':'));
    if port_start == 0 {
        Some(Endpoint { host: authority, port: 80 })
    } else {
        match port_of(authority.skip(port_start)) {
            Some(port) => Some(Endpoint { host: authority.take(port_start - 1), port }),
            None => None,
        }
    }
}

/// The endpoint and the path of `http://host[:port]/path`.
pub open spec fn absolute_uri(target: Seq<char>) -> Option<(Endpoint, Seq<char>)> {
    let scheme = "http://"@;
    if scheme.is_prefix_of(target) {
        let rest = target.skip(scheme.len() as int);
        match authority_endpoint(authority_of(rest)) {
            Some(endpoint) => Some((endpoint, path_of(rest))),
            None => None,
        }
    } else {
        None
    }
}

/// One past the last colon in `chars`, and zero if there is none.
fn after_last_colon(chars: &[char]) -> (end: usize)
    ensures
        end <= chars@.len(),
        end == after_last_where(chars@, equals(':')),
{
    let mut end: usize = chars.len();
    while end > 0 && chars[end - 1] != ':'
        invariant
            end <= chars.len(),
            forall|j: int| end <= j < chars.len() ==> chars@[j] != ':',
        decreases end,
    {
        end -= 1;
    }
    proof {
        lemma_after_last_where_is(chars@, equals(':'), end as int);
    }
    end
}

/// The port that some text denotes.
fn parse_port(chars: &[char]) -> (r: Option<u16>)
    ensures
        r == port_of(chars@),
{
    match parse_unsigned(chars, u16::MAX as usize) {
        Some(n) => Some(n as u16),
        None => None,
    }
}

/// Splits the target of a `CONNECT` request at its last colon.
pub fn parse_connect_target(target: &str) -> (r: Result<(String, u16), ConnectTargetError>)
    ensures
        match r {
            Ok((host, port)) => connect_endpoint(target@) == Ok::<Endpoint, ConnectTargetError>(
                Endpoint { host: host@, port },
            ),
            Err(e) => connect_endpoint(target@) == Err::<Endpoint, ConnectTargetError>(e),
        },
{
    let chars = chars_of(target);
    let port_start = after_last_colon(chars.as_slice());
    if port_start == 0 {
        return Err(ConnectTargetError::NoPort);
    }
    let port_text = slice_subrange(chars.as_slice(), port_start, chars.len());
    assert(port_text@ == target@.skip(port_start as int));
    match parse_port(port_text) {
        Some(port) => {
            let host = target.substring_char(0, port_start - 1).to_owned();
            assert(host@ == target@.take(port_start - 1));
            Ok((host, port))
        },
        None => Err(ConnectTargetError::BadPort),
    }
}

/// Splits `http://host[:port]/path` into host, port and path. The port is 80
/// by default.
pub fn parse_absolute_uri(target: &str) -> (r: Option<(String, u16, String)>)
    ensures
        match r {
            Some((host, port, path)) => absolute_uri(target@) == Some(
                (Endpoint { host: host@, port }, path@),
            ),
            None => absolute_uri(target@) is None,
        },
{
    proof {
        reveal_strlit("http://");
        reveal_strlit("/");
    }
    let ghost scheme = "http://"@;
    let chars = chars_of(target);
    let n: usize = chars.len();
    let is_http = n >= 7 && chars[0] == 'h' && chars[1] == 't' && chars[2] == 't' && chars[3] == 'p'
        && chars[4] == ':' && chars[5] == '/' && chars[6] == '/';
    if !is_http {
        assert(!scheme.is_prefix_of(target@)) by {
            if scheme.is_prefix_of(target@) {
                let head = target@.subrange(0, 7);
                assert(head[0] == target@[0] && head[1] == target@[1] && head[2] == target@[2]
                    && head[3] == target@[3] && head[4] == target@[4] && head[5] == target@[5]
                    && head[6] == target@[6]);
            }
        }
        return None;
    }
    assert(scheme == target@.subrange(0, 7));
    let ghost rest = target@.skip(7);
    let mut slash: usize = 7;
    while slash < n && chars[slash] != '/'
        invariant
            7 <= slash <= n,
            n == chars@.len(),
            chars@ == target@,
            rest == target@.skip(7),
            forall|j: int| 0 <= j < slash - 7 ==> rest[j] != '/',
        decreases n - slash,
    {
        assert(rest[slash - 7] == chars@[slash as int]);
        slash += 1;
    }
    proof {
        if slash < n {
            assert(rest[slash - 7] == chars@[slash as int]);
        }
        lemma_first_where_is(rest, equals('/'), slash - 7);
    }
    let authority = slice_subrange(chars.as_slice(), 7, slash);
    assert(authority@ == authority_of(rest));
    let path = if slash < n {
        let path = target.substring_char(slash, n).to_owned();
        assert(path@ == rest.skip(slash - 7));
        path
    } else {
        "/".to_owned()
    };
    let port_start = after_last_colon(authority);
    if port_start == 0 {
        let host = target.substring_char(7, slash).to_owned();
        assert(host@ == authority@);
        return Some((host, 80, path));
    }
    let port_text = slice_subrange(authority, port_start, authority.len());
    assert(port_text@ == authority@.skip(port_start as int));
    match parse_port(port_text) {
        Some(port) => {
            let host = target.substring_char(7, 7 + port_start - 1).to_owned();
            assert(host@ == authority@.take(port_start - 1));
            Some((host, port, path))
        },
        None => None,
    }
}

/// What a client is told once its tunnel is open.
pub const TUNNEL_REPLY: &'static str = "HTTP/1.1 200 Connection Established\r\n\r\n";

/// What a client wants, by the first line that it sends.
#[derive(Debug)]
pub enum ClientRequest {
    /// A tunnel to `target`.
    Connect { target: String },
    /// A plain request with an absolute URI.
    Plain { method: String, target: String },
    /// Nothing: the client closed the connection or sent a blank line.
    Nothing,
}

/// The contents of a `ClientRequest`.
pub enum Wanted {
    Connect { target: Seq<char> },
    Plain { method: Seq<char>, target: Seq<char> },
    Nothing,
}

impl View for ClientRequest {
    type V = Wanted;

    open spec fn view(&self) -> Wanted {
        match *self {
            ClientRequest::Connect { target } => Wanted::Connect { target: target@ },
            ClientRequest::Plain { method, target } => Wanted::Plain {
                method: method@,
                target: target@,
            },
            ClientRequest::Nothing => Wanted::Nothing,
        }
    }
}

/// What a first line asks for: its first word is the method, its second the
/// target.
pub open spec fn wanted(line: Seq<char>) -> Wanted {
    let method = first_word(line);
    let target = first_word(after_first_word(line));
    if method == "CONNECT"@ {
        Wanted::Connect { target }
    } else if method.len() > 0 {
        Wanted::Plain { method, target }
    } else {
        Wanted::Nothing
    }
}

/// Reads the first line of a connection.
pub fn classify(first_line: &str) -> (r: ClientRequest)
    ensures
        r@ == wanted(first_line@),
{
    let (method, target) = first_two_words(first_line);
    proof {
        reveal_strlit("CONNECT");
    }
    if method == "CONNECT".to_owned() {
        ClientRequest::Connect { target }
    } else if !method.as_str().is_empty() {
        ClientRequest::Plain { method, target }
    } else {
        ClientRequest::Nothing
    }
}

/// The last colon of `host:port` is the one in front of the port.
pub proof fn lemma_port_split(host: Seq<char>, port: u16)
    ensures
        ({
            let text = host + seq![':'] + decimal(port as nat);
            &&& after_last_where(text, equals(':')) == host.len() + 1
            &&& text.take(host.len() as int) == host
            &&& port_of(text.skip(host.len() as int + 1)) == Some(port)
        }),
{
    let digits = decimal(port as nat);
    let text = host + seq![':'] + digits;
    law_decimal_denotes(port as nat);
    assert forall|j: int| host.len() + 1 <= j < text.len() implies #[trigger] text[j] != ':' by {
        assert(is_decimal_digit(digits[j - host.len() - 1]));
    }
    assert(text[host.len() as int] == ':');
    lemma_after_last_where_is(text, equals(':'), host.len() as int + 1);
    assert(text.take(host.len() as int) == host);
    assert(text.skip(host.len() as int + 1) == digits);
    assert(unsigned(digits, u16::MAX as nat) == Some(port as nat));
}

/// `host:port` denotes that host and that port, whatever the host, colons
/// within it included.
pub proof fn law_connect_target(host: Seq<char>, port: u16)
    ensures
        connect_endpoint(host + seq![':'] + decimal(port as nat)) == Ok::<
            Endpoint,
            ConnectTargetError,
        >(Endpoint { host, port }),
{
    lemma_port_split(host, port);
}

/// `http://host:port/path`, `http://host/path` and `http://host` denote what
/// they say, with port 80 and path `/` for what is left out.
pub proof fn law_absolute_uri(host: Seq<char>, port: u16, path: Seq<char>)
    requires
        !host.contains('/'),
        path.len() > 0,
        path[0] == '/',
    ensures
        absolute_uri("http://"@ + host + seq![':'] + decimal(port as nat) + path) == Some(
            (Endpoint { host, port }, path),
        ),
        !host.contains(':') ==> absolute_uri("http://"@ + host + path) == Some(
            (Endpoint { host, port: 80 }, path),
        ),
        !host.contains(':') ==> absolute_uri("http://"@ + host) == Some(
            (Endpoint { host, port: 80 }, "/"@),
        ),
{
    reveal_strlit("http://");
    reveal_strlit("/");
    let scheme = "http://"@;
    let digits = decimal(port as nat);
    let authority = host + seq![':'] + digits;
    law_decimal_denotes(port as nat);
    assert forall|j: int| 0 <= j < authority.len() implies #[trigger] authority[j] != '/' by {
        if j < host.len() {
            assert(host.contains(host[j]));
        } else if j > host.len() {
            assert(is_decimal_digit(digits[j - host.len() - 1]));
        }
    }
    lemma_uri_split(scheme, authority, path);
    assert(scheme + host + seq![':'] + digits + path == scheme + authority + path);
    lemma_port_split(host, port);
    if !host.contains(':') {
        assert forall|j: int| 0 <= j < host.len() implies #[trigger] host[j] != '/' && host[j]
            != ':' by {
            assert(host.contains(host[j]));
        }
        lemma_after_last_where_is(host, equals(':'), 0);
        lemma_uri_split(scheme, host, path);
        lemma_uri_split(scheme, host, Seq::empty());
        assert(scheme + host + Seq::<char>::empty() == scheme + host);
    }
}

/// Text in front of the first slash is the authority; what follows is the
/// path.
pub proof fn lemma_uri_split(scheme: Seq<char>, authority: Seq<char>, path: Seq<char>)
    requires
        forall|j: int| 0 <= j < authority.len() ==> authority[j] != '/',
        path.len() > 0 ==> path[0] == '/',
    ensures
        ({
            let target = scheme + authority + path;
            let rest = target.skip(scheme.len() as int);
            &&& scheme.is_prefix_of(target)
            &&& authority_of(rest) == authority
            &&& path_of(rest) == if path.len() > 0 { path } else { "/"@ }
        }),
{
    let target = scheme + authority + path;
    let rest = target.skip(scheme.len() as int);
    assert(target.subrange(0, scheme.len() as int) == scheme);
    assert(rest == authority + path);
    assert forall|j: int| 0 <= j < authority.len() implies #[trigger] rest[j] != '/' by {
        assert(authority[j] != '/');
    }
    if path.len() > 0 {
        assert(rest[authority.len() as int] == path[0]);
    }
    lemma_first_where_is(rest, equals('/'), authority.len() as int);
    assert(rest.take(authority.len() as int) == authority);
    assert(rest.skip(authority.len() as int) == path);
}

} // verus!
