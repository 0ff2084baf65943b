use gost_upstream::connectors::reply::ReadFailure;
use gost_upstream::connectors::vm_gost::{
    forward_output, host_gost_command, vm_gost_command, GostReply, NoReply, GOST_CIPHERS,
};

#[test]
fn remote_command_line() {
    let command = vm_gost_command("user@vm-host", "~/gost.cnf", "target.example.ru", 443);
    assert_eq!(command.program, "ssh");
    assert_eq!(
        command.args,
        vec![
            "-o".to_string(),
            "BatchMode=yes".to_string(),
            "user@vm-host".to_string(),
            "OPENSSL_CONF=~/gost.cnf openssl s_client -connect target.example.ru:443 \
             -cipher GOST2012-MAGMA-MAGMAOMAC:GOST2012-KUZNYECHIK-KUZNYECHIKOMAC:\
             LEGACY-GOST2012-GOST8912-GOST8912:IANA-GOST2012-GOST8912-GOST8912:\
             GOST2001-GOST89-GOST89 -tls1_2 -quiet -ign_eof 2>/dev/null"
                .to_string(),
        ]
    );
    assert_eq!(command.env, None);
}

#[test]
fn local_command_line() {
    let command = host_gost_command("/etc/gost.cnf", "h", 65535);
    assert_eq!(command.program, "openssl");
    let expected: Vec<String> = [
        "s_client", "-connect", "h:65535", "-cipher", GOST_CIPHERS, "-tls1_2", "-quiet", "-ign_eof",
    ]
    .iter()
    .map(|argument| argument.to_string())
    .collect();
    assert_eq!(command.args, expected);
    assert_eq!(
        command.env,
        Some(("OPENSSL_CONF".to_string(), "/etc/gost.cnf".to_string()))
    );
}

#[test]
fn output_is_passed_on_until_it_ends() {
    assert_eq!(forward_output(Ok(b"ab")), Some(b"ab".to_vec()));
    assert_eq!(forward_output(Ok(b"")), None);
    assert_eq!(forward_output(Err(ReadFailure::Other)), None);
}

#[test]
fn first_byte_may_take_longer() {
    let mut reply = GostReply::new();
    assert_eq!(reply.wait_millis(), 10_000);
    assert!(!reply.on_piece(Some(b"HTTP/1.1 ")));
    assert_eq!(reply.wait_millis(), 800);
    assert!(!reply.on_piece(Some(b"200 OK")));
    assert!(reply.on_piece(None));
    assert_eq!(reply.finish(), Ok(b"HTTP/1.1 200 OK".to_vec()));
}

#[test]
fn silence_from_the_start_is_an_error() {
    let mut reply = GostReply::new();
    assert!(reply.on_piece(None));
    assert_eq!(reply.finish(), Err(NoReply));
}
