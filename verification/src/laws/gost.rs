//! Laws of the processes that speak GOST TLS, and of what they reply.

use crate::connectors::reply::ReadFailure;
use crate::connectors::vm_gost::{
    forward_output, host_gost_command, vm_gost_command, CommandLine, GostReply, NoReply,
};
use crate::numerals::{decimal, decimal_text};
use crate::proxy::dispatch::{call_gost, GostFallback};
use crate::proxy::target::{lemma_port_split, parse_connect_target, ConnectTargetError};
use std::time::Duration;
use vstd::prelude::*;

verus! {

/// What comes in front of the endpoint in a remote command.
pub open spec fn command_front(openssl_cnf_path: Seq<char>) -> Seq<char> {
    "OPENSSL_CONF="@ + openssl_cnf_path + " openssl s_client -connect "@
}

/// The cipher suites, by name.
pub open spec fn suites() -> Seq<char> {
    "GOST2012-MAGMA-MAGMAOMAC:GOST2012-KUZNYECHIK-KUZNYECHIKOMAC:LEGACY-GOST2012-GOST8912-GOST8912:IANA-GOST2012-GOST8912-GOST8912:GOST2001-GOST89-GOST89"@
}

/// What comes behind the endpoint in a remote command.
pub open spec fn command_back() -> Seq<char> {
    " -cipher "@ + suites() + " -tls1_2 -quiet -ign_eof 2>/dev/null"@
}

/// Text around which the same stands twice is the same.
proof fn lemma_between(front: Seq<char>, a: Seq<char>, b: Seq<char>, back: Seq<char>)
    requires
        front + a + back == front + b + back,
    ensures
        a == b,
{
    let s = front + a + back;
    let t = front + b + back;
    assert(s.len() == t.len());
    assert(a.len() == b.len());
    assert(s.subrange(front.len() as int, (front.len() + a.len()) as int) == a);
    assert(t.subrange(front.len() as int, (front.len() + b.len()) as int) == b);
}

/// The contents of the arguments of a command.
proof fn lemma_args(command: CommandLine)
    ensures
        command@.args.len() == command.args@.len(),
        forall|i: int|
            0 <= i < command.args@.len() ==> command@.args[i] == #[trigger] command.args@[i]@,
{
}

/// The process that goes through another machine is `ssh` without a terminal and
/// without questions, and the last argument is what runs there: a TLS client with the
/// given configuration that connects to `host:port`.
pub proof fn law_remote_command(
    ssh_target: &str,
    openssl_cnf_path: &str,
    host: &str,
    port: u16,
    r: CommandLine,
    wide: usize,
    digits: String,
)
    requires
        call_ensures(vm_gost_command, (ssh_target, openssl_cnf_path, host, port), r),
        wide == port,
        call_ensures(decimal_text, (wide,), digits),
    ensures
        r.program@ == "ssh"@,
        r.env is None,
        r.args@.len() == 4,
        r.args@[0]@ == "-o"@,
        r.args@[1]@ == "BatchMode=yes"@,
        r.args@[2]@ == ssh_target@,
        r.args@[3]@ == command_front(openssl_cnf_path@) + (host@ + seq![':'] + digits@)
            + command_back(),
{
    lemma_args(r);
    reveal_strlit(":");
    assert(":"@ == seq![':']);
    assert(r.args@[0]@ == "-o"@);
    assert(r.args@[1]@ == "BatchMode=yes"@);
    assert(r.args@[2]@ == ssh_target@);
    assert(r@.args[3] == r.args@[3]@);
}

/// The process on this machine is a TLS client that connects to `host:port` and finds
/// its configuration in the environment.
pub proof fn law_local_command(
    openssl_cnf_path: &str,
    host: &str,
    port: u16,
    r: CommandLine,
    wide: usize,
    digits: String,
)
    requires
        call_ensures(host_gost_command, (openssl_cnf_path, host, port), r),
        wide == port,
        call_ensures(decimal_text, (wide,), digits),
    ensures
        r.program@ == "openssl"@,
        r.env matches Some((name, value)) && name@ == "OPENSSL_CONF"@ && value@
            == openssl_cnf_path@,
        r.args@.len() == 8,
        r.args@[0]@ == "s_client"@,
        r.args@[1]@ == "-connect"@,
        r.args@[2]@ == host@ + seq![':'] + digits@,
        r.args@[3]@ == "-cipher"@,
        r.args@[4]@ == suites(),
        r.args@[5]@ == "-tls1_2"@,
        r.args@[6]@ == "-quiet"@,
        r.args@[7]@ == "-ign_eof"@,
{
    lemma_args(r);
    reveal_strlit(":");
    assert(":"@ == seq![':']);
    assert(r.args@[0]@ == "s_client"@);
    assert(r.args@[1]@ == "-connect"@);
    assert(r.args@[2]@ == host@ + seq![':'] + digits@);
    assert(r.args@[3]@ == "-cipher"@);
    assert(r.args@[4]@ == suites());
    assert(r.args@[5]@ == "-tls1_2"@);
    assert(r.args@[6]@ == "-quiet"@);
    assert(r.args@[7]@ == "-ign_eof"@);
}

/// Both processes connect to the same endpoint: the word behind `-connect` in the
/// remote command is the argument behind `-connect` of the local one, and it is read,
/// as the target of a `CONNECT` request is, as exactly the given host and port.
pub proof fn law_commands_connect_to_target(
    ssh_target: &str,
    openssl_cnf_path: &str,
    host: &str,
    port: u16,
    remote: CommandLine,
    local: CommandLine,
    remote_endpoint: &str,
    local_endpoint: &str,
    remote_read: Result<(String, u16), ConnectTargetError>,
    local_read: Result<(String, u16), ConnectTargetError>,
)
    requires
        call_ensures(vm_gost_command, (ssh_target, openssl_cnf_path, host, port), remote),
        call_ensures(host_gost_command, (openssl_cnf_path, host, port), local),
        remote.args@.len() > 0,
        remote.args@.last()@ == command_front(openssl_cnf_path@) + remote_endpoint@
            + command_back(),
        local_endpoint@ == local.args@[2]@,
        call_ensures(parse_connect_target, (remote_endpoint,), remote_read),
        call_ensures(parse_connect_target, (local_endpoint,), local_read),
    ensures
        local.args@.len() > 2 && local.args@[1]@ == "-connect"@,
        remote_endpoint@ == local_endpoint@,
        remote_read matches Ok((h, p)) && h@ == host@ && p == port,
        local_read matches Ok((h, p)) && h@ == host@ && p == port,
{
    lemma_args(remote);
    lemma_args(local);
    reveal_strlit(":");
    assert(":"@ == seq![':']);
    let text = host@ + seq![':'] + decimal(port as nat);
    assert(remote.args@.last()@ == remote@.args[3]);
    assert(remote.args@.last()@ == command_front(openssl_cnf_path@) + text + command_back());
    lemma_between(command_front(openssl_cnf_path@), remote_endpoint@, text, command_back());
    assert(local.args@[1]@ == "-connect"@);
    assert(local.args@[2]@ == text);
    lemma_port_split(host@, port);
}

/// Commands for different endpoints are different.
pub proof fn law_commands_differ(
    ssh_target: &str,
    openssl_cnf_path: &str,
    host: &str,
    port: u16,
    other_host: &str,
    other_port: u16,
    remote: CommandLine,
    other_remote: CommandLine,
    local: CommandLine,
    other_local: CommandLine,
)
    requires
        call_ensures(vm_gost_command, (ssh_target, openssl_cnf_path, host, port), remote),
        call_ensures(
            vm_gost_command,
            (ssh_target, openssl_cnf_path, other_host, other_port),
            other_remote,
        ),
        call_ensures(host_gost_command, (openssl_cnf_path, host, port), local),
        call_ensures(host_gost_command, (openssl_cnf_path, other_host, other_port), other_local),
        host@ != other_host@ || port != other_port,
    ensures
        remote.args@.last()@ != other_remote.args@.last()@,
        local.args@[2]@ != other_local.args@[2]@,
{
    lemma_args(remote);
    lemma_args(other_remote);
    lemma_args(local);
    lemma_args(other_local);
    reveal_strlit(":");
    assert(":"@ == seq![':']);
    let front = command_front(openssl_cnf_path@);
    let text = host@ + seq![':'] + decimal(port as nat);
    let other = other_host@ + seq![':'] + decimal(other_port as nat);
    lemma_port_split(host@, port);
    lemma_port_split(other_host@, other_port);
    assert(text != other);
    assert(remote.args@.last()@ == remote@.args[3]);
    assert(other_remote.args@.last()@ == other_remote@.args[3]);
    assert(remote.args@.last()@ == front + text + command_back());
    assert(other_remote.args@.last()@ == front + other + command_back());
    if remote.args@.last()@ == other_remote.args@.last()@ {
        lemma_between(front, text, other, command_back());
    }
    assert(local.args@[2]@ == text);
    assert(other_local.args@[2]@ == other);
}

/// Whether two processes are started in the same way.
pub open spec fn same_command(a: CommandLine, b: CommandLine) -> bool {
    &&& a.program@ == b.program@
    &&& a.args@.len() == b.args@.len()
    &&& forall|i: int| 0 <= i < a.args@.len() ==> #[trigger] a.args@[i]@ == b.args@[i]@
    &&& match (a.env, b.env) {
        (Some((name, value)), Some((other_name, other_value))) => name@ == other_name@ && value@
            == other_value@,
        (None, None) => true,
        _ => false,
    }
}

/// A fallback starts the process that its kind says, with its own settings and its own
/// time limit.
pub proof fn law_call_gost(
    gost: &GostFallback,
    host: &str,
    port: u16,
    r: (CommandLine, Duration),
    ssh: &str,
    cnf: &str,
    remote: CommandLine,
    local: CommandLine,
)
    requires
        call_ensures(call_gost, (gost, host, port), r),
        call_ensures(vm_gost_command, (ssh, cnf, host, port), remote),
        call_ensures(host_gost_command, (cnf, host, port), local),
    ensures
        *gost matches GostFallback::Vm { ssh_target, openssl_cnf_path, timeout } ==> {
            &&& ssh_target@ == ssh@ && openssl_cnf_path@ == cnf@ ==> same_command(r.0, remote)
            &&& r.1 == timeout
        },
        *gost matches GostFallback::Host { openssl_cnf_path, timeout } ==> {
            &&& openssl_cnf_path@ == cnf@ ==> same_command(r.0, local)
            &&& r.1 == timeout
        },
{
    lemma_args(r.0);
    lemma_args(remote);
    lemma_args(local);
}

/// What the process puts out is passed on as it is, until its output ends or fails.
pub proof fn law_forward_output(read: Result<&[u8], ReadFailure>, r: Option<Vec<u8>>)
    requires
        call_ensures(forward_output, (read,), r),
    ensures
        read matches Ok(data) ==> if data@.len() == 0 {
            r is None
        } else {
            r matches Some(bytes) && bytes@ == data@
        },
        read is Err ==> r is None,
{
}

/// The bytes of a reply, none where there was no reply.
pub open spec fn reply_bytes(r: Result<Vec<u8>, NoReply>) -> Seq<u8> {
    match r {
        Ok(bytes) => bytes@,
        Err(_) => Seq::empty(),
    }
}

/// Nothing has arrived of a new reply, which is no reply.
pub proof fn law_new_gost_reply(r: GostReply, finished: Result<Vec<u8>, NoReply>)
    requires
        call_ensures(GostReply::new, (), r),
        call_ensures(GostReply::finish, (r,), finished),
    ensures
        finished is Err,
{
}

/// A reply is all its pieces, one behind the other; a pause ends it and nothing else
/// does. It is no reply only if not a byte arrived. Before the first byte a pause is ten
/// seconds long, and 800 milliseconds from then on.
pub proof fn law_on_piece(
    reply: &mut GostReply,
    piece: Option<&[u8]>,
    done: bool,
    before: Result<Vec<u8>, NoReply>,
    after: Result<Vec<u8>, NoReply>,
    wait: u64,
)
    requires
        call_ensures(GostReply::finish, (*old(reply),), before),
        call_ensures(GostReply::on_piece, (reply, piece), done),
        call_ensures(GostReply::finish, (*final(reply),), after),
        call_ensures(GostReply::wait_millis, (&*final(reply),), wait),
    ensures
        done == (piece is None),
        reply_bytes(after) == reply_bytes(before) + match piece {
            Some(bytes) => bytes@,
            None => Seq::empty(),
        },
        after is Ok <==> reply_bytes(after).len() > 0,
        wait == if after is Err {
            10000
        } else {
            800u64
        },
{
    assert(reply_bytes(before) == old(reply)@);
    assert(reply_bytes(after) == final(reply)@);
}

} // verus!
