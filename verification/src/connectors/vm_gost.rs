use super::reply::{all_bytes, read_bytes, read_view, ReadFailure};
use crate::numerals::{decimal, decimal_text};
use vstd::prelude::*;
use vstd::slice::slice_to_vec;

verus! {

/// The cipher suites that `openssl ciphers` offers once gost-engine has been
/// loaded through `openssl.cnf`. With the `-engine` flag the suites are scanned
/// before the engine is there, and stay disabled.
pub const GOST_CIPHERS: &'static str = "GOST2012-MAGMA-MAGMAOMAC:GOST2012-KUZNYECHIK-KUZNYECHIKOMAC:LEGACY-GOST2012-GOST8912-GOST8912:IANA-GOST2012-GOST8912-GOST8912:GOST2001-GOST89-GOST89";

/// How long to wait for the first byte of a reply: SSH and the GOST handshake
/// come first.
pub const FIRST_BYTE_WAIT_MILLIS: u64 = 10_000;

/// How long a pause has to be for a reply that has begun to count as finished.
pub const IDLE_WAIT_MILLIS: u64 = 800;

/// A process to start.
#[derive(Debug)]
pub struct CommandLine {
    pub program: String,
    pub args: Vec<String>,
    /// A variable to set in the environment of the process.
    pub env: Option<(String, String)>,
}

/// The contents of a `CommandLine`.
#[verifier::ext_equal]
pub struct CommandSpec {
    pub program: Seq<char>,
    pub args: Seq<Seq<char>>,
    pub env: Option<(Seq<char>, Seq<char>)>,
}

impl View for CommandLine {
    type V = CommandSpec;

    open spec fn view(&self) -> CommandSpec {
        CommandSpec {
            program: self.program@,
            args: self.args@.map_values(|a: String| a@),
            env: match self.env {
                Some((name, value)) => Some((name@, value@)),
                None => None,
            },
        }
    }
}

/// The text `host:port`.
pub open spec fn endpoint_text(host: Seq<char>, port: u16) -> Seq<char> {
    host + ":"@ + decimal(port as nat)
}

/// The shell command that opens a GOST TLS connection on a remote machine.
pub open spec fn remote_command(
    openssl_cnf_path: Seq<char>,
    target_host: Seq<char>,
    target_port: u16,
) -> Seq<char> {
    "OPENSSL_CONF="@ + openssl_cnf_path + " openssl s_client -connect "@ + endpoint_text(
        target_host,
        target_port,
    ) + " -cipher "@ + GOST_CIPHERS@ + " -tls1_2 -quiet -ign_eof 2>/dev/null"@
}

/// The process that reaches a target through a remote machine: `ssh` without a
/// terminal, so that bytes pass unchanged.
pub open spec fn vm_command(
    ssh_target: Seq<char>,
    openssl_cnf_path: Seq<char>,
    target_host: Seq<char>,
    target_port: u16,
) -> CommandSpec {
    CommandSpec {
        program: "ssh"@,
        args: seq![
            "-o"@,
            "BatchMode=yes"@,
            ssh_target,
            remote_command(openssl_cnf_path, target_host, target_port),
        ],
        env: None,
    }
}

/// The process that reaches a target from this machine.
pub open spec fn host_command(
    openssl_cnf_path: Seq<char>,
    target_host: Seq<char>,
    target_port: u16,
) -> CommandSpec {
    CommandSpec {
        program: "openssl"@,
        args: seq![
            "s_client"@,
            "-connect"@,
            endpoint_text(target_host, target_port),
            "-cipher"@,
            GOST_CIPHERS@,
            "-tls1_2"@,
            "-quiet"@,
            "-ign_eof"@,
        ],
        env: Some(("OPENSSL_CONF"@, openssl_cnf_path)),
    }
}

/// The text `host:port`.
fn endpoint_string(host: &str, port: u16) -> (r: String)
    ensures
        r@ == endpoint_text(host@, port),
{
    let digits = decimal_text(port as usize);
    host.to_owned().concat(":").concat(digits.as_str())
}

/// The process that reaches a target through the machine `ssh_target`, where
/// `openssl_cnf_path` is the configuration that loads gost-engine. Nothing but
/// the plain byte stream passes over SSH.
pub fn vm_gost_command(
    ssh_target: &str,
    openssl_cnf_path: &str,
    target_host: &str,
    target_port: u16,
) -> (r: CommandLine)
    ensures
        r@ == vm_command(ssh_target@, openssl_cnf_path@, target_host@, target_port),
{
    let endpoint = endpoint_string(target_host, target_port);
    let remote = "OPENSSL_CONF=".to_owned().concat(openssl_cnf_path).concat(
        " openssl s_client -connect ",
    ).concat(endpoint.as_str()).concat(" -cipher ").concat(GOST_CIPHERS).concat(
        " -tls1_2 -quiet -ign_eof 2>/dev/null",
    );
    let mut args: Vec<String> = Vec::new();
    args.push("-o".to_owned());
    args.push("BatchMode=yes".to_owned());
    args.push(ssh_target.to_owned());
    args.push(remote);
    let r = CommandLine { program: "ssh".to_owned(), args, env: None };
    assert(r@ == vm_command(ssh_target@, openssl_cnf_path@, target_host@, target_port));
    r
}

/// The process that reaches a target from this machine, where
/// `openssl_cnf_path` is the configuration that loads gost-engine.
pub fn host_gost_command(openssl_cnf_path: &str, target_host: &str, target_port: u16) -> (r:
    CommandLine)
    ensures
        r@ == host_command(openssl_cnf_path@, target_host@, target_port),
{
    let mut args: Vec<String> = Vec::new();
    args.push("s_client".to_owned());
    args.push("-connect".to_owned());
    args.push(endpoint_string(target_host, target_port));
    args.push("-cipher".to_owned());
    args.push(GOST_CIPHERS.to_owned());
    args.push("-tls1_2".to_owned());
    args.push("-quiet".to_owned());
    args.push("-ign_eof".to_owned());
    let r = CommandLine {
        program: "openssl".to_owned(),
        args,
        env: Some(("OPENSSL_CONF".to_owned(), openssl_cnf_path.to_owned())),
    };
    assert(r@ == host_command(openssl_cnf_path@, target_host@, target_port));
    r
}

/// What the output of the process is passed on as: the bytes of one read, and
/// nothing once the output has ended or failed.
pub fn forward_output(read: Result<&[u8], ReadFailure>) -> (r: Option<Vec<u8>>)
    ensures
        match r {
            Some(bytes) => read_view(read) == Ok::<Seq<u8>, ReadFailure>(bytes@) && bytes@.len()
                > 0,
            None => read_bytes(read_view(read)).len() == 0,
        },
{
    match read {
        Ok(data) => if data.len() == 0 {
            None
        } else {
            Some(slice_to_vec(data))
        },
        Err(_) => None,
    }
}

/// No byte of a reply arrived.
#[derive(Debug, Clone, Copy, PartialEq, Eq)]
pub struct NoReply;

/// Collects the reply of the process. The process does not end its output by
/// itself, so a pause is what ends a reply.
#[derive(Debug)]
pub struct GostReply {
    response: Vec<u8>,
}

impl View for GostReply {
    type V = Seq<u8>;

    closed spec fn view(&self) -> Seq<u8> {
        self.response@
    }
}

/// How long to wait for the next piece of a reply.
pub open spec fn wait_for(response: Seq<u8>) -> u64 {
    if response.len() == 0 {
        FIRST_BYTE_WAIT_MILLIS
    } else {
        IDLE_WAIT_MILLIS
    }
}

impl GostReply {
    /// A reply of which nothing has arrived.
    pub fn new() -> (r: Self)
        ensures
            r@ == Seq::<u8>::empty(),
    {
        GostReply { response: Vec::new() }
    }

    /// How long to wait for the next piece, in milliseconds.
    pub fn wait_millis(&self) -> (r: u64)
        ensures
            r == wait_for(self@),
    {
        if self.response.len() == 0 {
            FIRST_BYTE_WAIT_MILLIS
        } else {
            IDLE_WAIT_MILLIS
        }
    }

    /// Takes in the next piece, `None` if none came in time, and tells whether
    /// the reply has ended.
    pub fn on_piece(&mut self, piece: Option<&[u8]>) -> (done: bool)
        ensures
            done == (piece is None),
            final(self)@ == match piece {
                Some(bytes) => old(self)@ + bytes@,
                None => old(self)@,
            },
    {
        match piece {
            Some(bytes) => {
                self.response.extend_from_slice(bytes);
                assert(self.response@ == old(self)@ + bytes@);
                false
            },
            None => true,
        }
    }

    /// The reply; a target that sent nothing in time has not been reached.
    pub fn finish(self) -> (r: Result<Vec<u8>, NoReply>)
        ensures
            match r {
                Ok(response) => self@.len() > 0 && response@ == self@,
                Err(NoReply) => self@.len() == 0,
            },
    {
        if self.response.len() == 0 {
            Err(NoReply)
        } else {
            Ok(self.response)
        }
    }
}

/// The reply that a series of pieces makes up once a pause follows, with
/// `response` collected already.
pub open spec fn gost_reply_run(response: Seq<u8>, pieces: Seq<Seq<u8>>) -> Seq<u8>
    decreases pieces.len(),
{
    if pieces.len() == 0 {
        response
    } else {
        gost_reply_run(response + pieces[0], pieces.drop_first())
    }
}

/// A reply is the concatenation of its pieces, and the short pause applies from
/// the first byte on.
pub proof fn law_gost_reply_is_all_bytes(response: Seq<u8>, pieces: Seq<Seq<u8>>)
    ensures
        gost_reply_run(response, pieces) == response + all_bytes(pieces),
        response.len() > 0 ==> wait_for(gost_reply_run(response, pieces)) == IDLE_WAIT_MILLIS,
    decreases pieces.len(),
{
    if pieces.len() == 0 {
        assert(response + all_bytes(pieces) == response);
    } else {
        law_gost_reply_is_all_bytes(response + pieces[0], pieces.drop_first());
        assert(response + pieces[0] + all_bytes(pieces.drop_first()) == response + all_bytes(
            pieces,
        ));
    }
}

} // verus!
