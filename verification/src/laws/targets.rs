//! Laws of what a client asks for and of the targets that it names.

use super::words::{all_white, is_word, lemma_first_word, lemma_no_word, starts_white, white};
use crate::numerals::{decimal_text, parse_unsigned};
use crate::proxy::target::{
    classify, lemma_port_split, lemma_uri_split, parse_absolute_uri, parse_connect_target,
    ClientRequest, ConnectTargetError, TUNNEL_REPLY,
};
use crate::scan::{after_last_where, equals, lemma_after_last_where_is};
use vstd::prelude::*;

verus! {

/// The first word of a line is the method and the second one the target, both whole
/// and unchanged, whatever surrounds them: the method `CONNECT` asks for a tunnel to
/// the target, and any other one is a plain request.
pub proof fn law_classify(
    line: &str,
    lead: Seq<char>,
    method: Seq<char>,
    gap: Seq<char>,
    target: Seq<char>,
    tail: Seq<char>,
    r: ClientRequest,
)
    requires
        call_ensures(classify, (line,), r),
        line@ == lead + method + (gap + target + tail),
        all_white(lead),
        is_word(method),
        gap.len() > 0,
        all_white(gap),
        is_word(target),
        starts_white(tail),
    ensures
        method == "CONNECT"@ ==> (r matches ClientRequest::Connect { target: t } && t@ == target),
        method != "CONNECT"@ ==> (r matches ClientRequest::Plain { method: m, target: t } && m@
            == method && t@ == target),
{
    assert(white(gap[0]));
    assert((gap + target + tail)[0] == gap[0]);
    lemma_first_word(lead, method, gap + target + tail);
    lemma_first_word(gap, target, tail);
}

/// The line `method target rest` asks for exactly that method and that target.
pub proof fn law_request_line(
    line: &str,
    method: Seq<char>,
    target: Seq<char>,
    rest: Seq<char>,
    r: ClientRequest,
)
    requires
        call_ensures(classify, (line,), r),
        line@ == method + seq![' '] + target + seq![' '] + rest,
        is_word(method),
        is_word(target),
    ensures
        method == "CONNECT"@ ==> (r matches ClientRequest::Connect { target: t } && t@ == target),
        method != "CONNECT"@ ==> (r matches ClientRequest::Plain { method: m, target: t } && m@
            == method && t@ == target),
{
    let lead = Seq::<char>::empty();
    let gap = seq![' '];
    let tail = seq![' '] + rest;
    assert(line@ == lead + method + (gap + target + tail));
    law_classify(line, lead, method, gap, target, tail, r);
}

/// A line of one word has an empty target, and a line without words asks for nothing.
pub proof fn law_classify_short(
    line: &str,
    lead: Seq<char>,
    method: Seq<char>,
    tail: Seq<char>,
    r: ClientRequest,
)
    requires
        call_ensures(classify, (line,), r),
        line@ == lead + method + tail,
        all_white(lead),
        method.len() == 0 || is_word(method),
        all_white(tail),
    ensures
        method.len() == 0 ==> r is Nothing,
        method == "CONNECT"@ ==> (r matches ClientRequest::Connect { target: t } && t@.len() == 0),
        method.len() > 0 && method != "CONNECT"@ ==> (r matches ClientRequest::Plain {
            method: m,
            target: t,
        } && m@ == method && t@.len() == 0),
{
    reveal_strlit("CONNECT");
    if method.len() > 0 {
        if tail.len() > 0 {
            assert(white(tail[0]));
        }
        lemma_first_word(lead, method, tail);
        lemma_no_word(tail);
    } else {
        assert forall|i: int| 0 <= i < line@.len() implies white(#[trigger] line@[i]) by {
            if i < lead.len() {
                assert(line@[i] == lead[i]);
            } else {
                assert(line@[i] == tail[i - lead.len()]);
            }
        }
        lemma_no_word(line@);
    }
}

/// What a client is told once its tunnel is open: a status line and a blank line.
pub proof fn law_tunnel_reply()
    ensures
        TUNNEL_REPLY@ == "HTTP/1.1 200 Connection Established"@ + seq!['\r', '\n', '\r', '\n'],
{
    reveal_strlit("HTTP/1.1 200 Connection Established");
    reveal_strlit("HTTP/1.1 200 Connection Established\r\n\r\n");
}

/// Whether a character does not occur in a text.
pub open spec fn is_free_of(s: Seq<char>, c: char) -> bool {
    forall|i: int| 0 <= i < s.len() ==> #[trigger] s[i] != c
}

/// A target without a colon has no port. Otherwise the number behind the last colon is
/// the port, if it is one, and all in front of that colon is the host.
pub proof fn law_split_target(
    target: &str,
    host: Seq<char>,
    port_text: &[char],
    max: usize,
    number: Option<usize>,
    r: Result<(String, u16), ConnectTargetError>,
)
    requires
        call_ensures(parse_connect_target, (target,), r),
        max == 65535,
        call_ensures(parse_unsigned, (port_text, max), number),
        is_free_of(port_text@, ':'),
    ensures
        is_free_of(target@, ':') ==> r == Err::<(String, u16), _>(ConnectTargetError::NoPort),
        target@ == host + seq![':'] + port_text@ ==> match number {
            Some(n) => r matches Ok((h, p)) && h@ == host && p == n,
            None => r == Err::<(String, u16), _>(ConnectTargetError::BadPort),
        },
{
    if is_free_of(target@, ':') {
        lemma_after_last_where_is(target@, equals(':'), 0);
    }
    if target@ == host + seq![':'] + port_text@ {
        let n = host.len() as int;
        lemma_colon(host, port_text@);
        assert(target@.take(n) == host);
        assert(target@.skip(n + 1) == port_text@);
    }
}

/// The last colon of two texts with a colon between them, of which the second has
/// none.
proof fn lemma_colon(host: Seq<char>, port: Seq<char>)
    requires
        is_free_of(port, ':'),
    ensures
        after_last_where(host + seq![':'] + port, equals(':')) == host.len() + 1,
{
    let text = host + seq![':'] + port;
    let n = host.len() as int;
    assert forall|j: int| n + 1 <= j < text.len() implies #[trigger] text[j] != ':' by {
        assert(text[j] == port[j - n - 1]);
    }
    assert(text[n] == ':');
    lemma_after_last_where_is(text, equals(':'), n + 1);
}

/// The text `host:port` is read back as exactly this host and this port, whatever the
/// host, colons within it included.
pub proof fn law_target_is_read_back(
    target: &str,
    host: Seq<char>,
    port: u16,
    wide: usize,
    digits: String,
    r: Result<(String, u16), ConnectTargetError>,
)
    requires
        wide == port,
        call_ensures(decimal_text, (wide,), digits),
        target@ == host + seq![':'] + digits@,
        call_ensures(parse_connect_target, (target,), r),
    ensures
        r matches Ok((h, p)) && h@ == host && p == port,
{
    lemma_port_split(host, port);
}

/// Only `http://` URIs are taken apart.
pub proof fn law_other_uris(target: &str, r: Option<(String, u16, String)>)
    requires
        call_ensures(parse_absolute_uri, (target,), r),
        !(target@.len() >= 7 && target@.take(7) == seq!['h', 't', 't', 'p', ':', '/', '/']),
    ensures
        r is None,
{
    reveal_strlit("http://");
    assert("http://"@ == seq!['h', 't', 't', 'p', ':', '/', '/']);
    if "http://"@.is_prefix_of(target@) {
        assert(target@.take(7) == "http://"@);
    }
}

/// In `http://authority/path` everything from the first slash on is the path, and `/`
/// without one. The number behind the last colon of the authority is the port, 80
/// without a colon, and what is in front of that colon is the host. With a colon but
/// no port number behind it there is no target.
pub proof fn law_split_uri(
    target: &str,
    authority: Seq<char>,
    path: Seq<char>,
    host: Seq<char>,
    port_text: &[char],
    max: usize,
    number: Option<usize>,
    r: Option<(String, u16, String)>,
)
    requires
        call_ensures(parse_absolute_uri, (target,), r),
        target@ == seq!['h', 't', 't', 'p', ':', '/', '/'] + authority + path,
        is_free_of(authority, '/'),
        path.len() > 0 ==> path[0] == '/',
        max == 65535,
        call_ensures(parse_unsigned, (port_text, max), number),
        is_free_of(port_text@, ':'),
    ensures
        is_free_of(authority, ':') ==> (r matches Some((h, p, rest)) && h@ == authority && p == 80
            && rest@ == if path.len() > 0 {
            path
        } else {
            seq!['/']
        }),
        authority == host + seq![':'] + port_text@ ==> match number {
            Some(n) => r matches Some((h, p, rest)) && h@ == host && p == n && rest@
                == if path.len() > 0 {
                path
            } else {
                seq!['/']
            },
            None => r is None,
        },
{
    reveal_strlit("http://");
    reveal_strlit("/");
    assert("http://"@ == seq!['h', 't', 't', 'p', ':', '/', '/']);
    assert("/"@ == seq!['/']);
    lemma_uri_split("http://"@, authority, path);
    if is_free_of(authority, ':') {
        lemma_after_last_where_is(authority, equals(':'), 0);
    }
    if authority == host + seq![':'] + port_text@ {
        let n = host.len() as int;
        lemma_colon(host, port_text@);
        assert(authority.take(n) == host);
        assert(authority.skip(n + 1) == port_text@);
    }
}

} // verus!
