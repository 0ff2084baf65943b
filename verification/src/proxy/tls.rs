//! The TLS settings towards clients and targets.

use rustls::pki_types::{
    CertificateDer, PrivateKeyDer, PrivatePkcs1KeyDer, PrivatePkcs8KeyDer, PrivateSec1KeyDer,
};
use vstd::prelude::*;

verus! {

/// An I/O error of the standard library.
#[verifier::external_type_specification]
#[verifier::external_body]
pub struct ExIoError(std::io::Error);

/// An error of the `rustls` crate.
#[verifier::external_type_specification]
#[verifier::external_body]
pub struct ExRustlsError(rustls::Error);

/// The settings of a TLS server, of the `rustls` crate.
#[verifier::external_type_specification]
#[verifier::external_body]
pub struct ExServerConfig(rustls::ServerConfig);

/// The settings of a TLS client, of the `rustls` crate.
#[verifier::external_type_specification]
#[verifier::external_body]
pub struct ExClientConfig(rustls::ClientConfig);

/// The authorities that a TLS client trusts, of the `rustls` crate.
#[verifier::external_type_specification]
#[verifier::external_body]
pub struct ExRootCertStore(rustls::RootCertStore);

/// The name that a TLS client expects of a server, of the `rustls` crate.
#[verifier::external_type_specification]
#[verifier::external_body]
pub struct ExServerName<'a>(rustls::pki_types::ServerName<'a>);

/// The error for a name that no server can have, of the `rustls` crate.
#[verifier::external_type_specification]
#[verifier::external_body]
pub struct ExInvalidDnsNameError(rustls::pki_types::InvalidDnsNameError);

/// A private key in one of the encodings that PEM files hold.
#[derive(Debug)]
pub enum PrivateKey {
    Pkcs1(Vec<u8>),
    Sec1(Vec<u8>),
    Pkcs8(Vec<u8>),
}

/// The contents of a `PrivateKey`.
pub enum PrivateKeySpec {
    Pkcs1(Seq<u8>),
    Sec1(Seq<u8>),
    Pkcs8(Seq<u8>),
}

impl View for PrivateKey {
    type V = PrivateKeySpec;

    open spec fn view(&self) -> PrivateKeySpec {
        match *self {
            PrivateKey::Pkcs1(der) => PrivateKeySpec::Pkcs1(der@),
            PrivateKey::Sec1(der) => PrivateKeySpec::Sec1(der@),
            PrivateKey::Pkcs8(der) => PrivateKeySpec::Pkcs8(der@),
        }
    }
}

/// The contents of a list of byte strings.
pub open spec fn byte_strings(list: Seq<Vec<u8>>) -> Seq<Seq<u8>> {
    list.map_values(|bytes: Vec<u8>| bytes@)
}

/// The certificates that `rustls_pemfile::certs` finds in a PEM text, or `None`
/// where it finds the text malformed.
pub uninterp spec fn pem_certificates(text: Seq<char>) -> Option<Seq<Seq<u8>>>;

/// The first private key that `rustls_pemfile::private_key` finds in a PEM text,
/// if there is one, or `None` where it finds the text malformed.
pub uninterp spec fn pem_private_key(text: Seq<char>) -> Option<Option<PrivateKeySpec>>;

/// The certificates in a PEM text, in their order, by `rustls_pemfile::certs`.
/// They depend on the text alone.
#[verifier::external_body]
fn certificates(pem: &str) -> (r: Result<Vec<Vec<u8>>, std::io::Error>)
    ensures
        match r {
            Ok(found) => pem_certificates(pem@) == Some(byte_strings(found@)),
            Err(_) => pem_certificates(pem@) is None,
        },
{
    let mut text = pem.as_bytes();
    let found = rustls_pemfile::certs(&mut text).map(|cert| cert.map(|der| der.to_vec()));
    found.collect()
}

/// The first private key in a PEM text, by `rustls_pemfile::private_key`. It
/// depends on the text alone.
#[verifier::external_body]
fn private_key(pem: &str) -> (r: Result<Option<PrivateKey>, std::io::Error>)
    ensures
        match r {
            Ok(Some(key)) => pem_private_key(pem@) == Some(Some(key@)),
            Ok(None) => pem_private_key(pem@) == Some(None::<PrivateKeySpec>),
            Err(_) => pem_private_key(pem@) is None,
        },
{
    Ok(match rustls_pemfile::private_key(&mut pem.as_bytes())? {
        Some(PrivateKeyDer::Pkcs1(key)) => Some(PrivateKey::Pkcs1(key.secret_pkcs1_der().to_vec())),
        Some(PrivateKeyDer::Sec1(key)) => Some(PrivateKey::Sec1(key.secret_sec1_der().to_vec())),
        Some(PrivateKeyDer::Pkcs8(key)) => Some(PrivateKey::Pkcs8(key.secret_pkcs8_der().to_vec())),
        _ => None,
    })
}

/// The settings of a server that asks no certificate of its clients and shows
/// this chain, by `rustls::ServerConfig::builder` and `with_single_cert`. Whether
/// key and chain are accepted depends on the cryptography that the process has
/// chosen, so nothing is claimed of the result.
#[verifier::external_body]
fn single_certificate(chain: Vec<Vec<u8>>, key: PrivateKey) -> Result<
    rustls::ServerConfig,
    rustls::Error,
> {
    let chain: Vec<CertificateDer<'static>> = chain.into_iter().map(CertificateDer::from).collect();
    let key = match key {
        PrivateKey::Pkcs1(der) => PrivateKeyDer::Pkcs1(PrivatePkcs1KeyDer::from(der)),
        PrivateKey::Sec1(der) => PrivateKeyDer::Sec1(PrivateSec1KeyDer::from(der)),
        PrivateKey::Pkcs8(der) => PrivateKeyDer::Pkcs8(PrivatePkcs8KeyDer::from(der)),
    };
    rustls::ServerConfig::builder().with_no_client_auth().with_single_cert(chain, key)
}

/// Why no server can be set up with a certificate and a key.
#[derive(Debug)]
pub enum ServerConfigError {
    /// The text of the certificates is malformed.
    Certificates(std::io::Error),
    /// The text of the key is malformed.
    PrivateKey(std::io::Error),
    /// The text of the key holds no private key.
    NoPrivateKey,
    /// Key and certificates are not accepted.
    Rejected(rustls::Error),
}

/// The certificate chain and the key that a server needs, from what reading them
/// came to. An error in the certificates goes before one in the key.
pub fn server_identity(
    certificates: Result<Vec<Vec<u8>>, std::io::Error>,
    key: Result<Option<PrivateKey>, std::io::Error>,
) -> (r: Result<(Vec<Vec<u8>>, PrivateKey), ServerConfigError>)
    ensures
        r == match (certificates, key) {
            (Err(error), _) => Err(ServerConfigError::Certificates(error)),
            (Ok(_), Err(error)) => Err(ServerConfigError::PrivateKey(error)),
            (Ok(_), Ok(None)) => Err(ServerConfigError::NoPrivateKey),
            (Ok(chain), Ok(Some(key))) => Ok((chain, key)),
        },
{
    match certificates {
        Ok(chain) => match key {
            Ok(Some(key)) => Ok((chain, key)),
            Ok(None) => Err(ServerConfigError::NoPrivateKey),
            Err(error) => Err(ServerConfigError::PrivateKey(error)),
        },
        Err(error) => Err(ServerConfigError::Certificates(error)),
    }
}

/// Whether reading the certificates in a PEM text may fail with this error.
pub closed spec fn certificates_fail(pem: &str, error: std::io::Error) -> bool {
    call_ensures(certificates, (pem,), Err(error))
}

/// Whether reading the private key in a PEM text may fail with this error.
pub closed spec fn private_key_fails(pem: &str, error: std::io::Error) -> bool {
    call_ensures(private_key, (pem,), Err(error))
}

/// Whether setting up a server with this chain and key may come to `r`.
pub closed spec fn setup_result(
    chain: Seq<Seq<u8>>,
    key: PrivateKeySpec,
    r: Result<rustls::ServerConfig, rustls::Error>,
) -> bool {
    exists|given: Vec<Vec<u8>>, given_key: PrivateKey|
        {
            &&& byte_strings(given@) == chain
            &&& given_key@ == key
            &&& #[trigger] call_ensures(single_certificate, (given, given_key), r)
        }
}

/// The settings of a server that shows the certificates of one PEM text and uses
/// the first private key of another.
pub fn build_server_config(cert_pem: &str, key_pem: &str) -> (r: Result<
    rustls::ServerConfig,
    ServerConfigError,
>)
    ensures
        match (pem_certificates(cert_pem@), pem_private_key(key_pem@)) {
            (None, _) => r matches Err(ServerConfigError::Certificates(error))
                && certificates_fail(cert_pem, error),
            (Some(_), None) => r matches Err(ServerConfigError::PrivateKey(error))
                && private_key_fails(key_pem, error),
            (Some(_), Some(None)) => r matches Err(ServerConfigError::NoPrivateKey),
            (Some(chain), Some(Some(key))) => match r {
                Ok(config) => setup_result(chain, key, Ok(config)),
                Err(ServerConfigError::Rejected(error)) => setup_result(chain, key, Err(error)),
                Err(_) => false,
            },
        },
{
    match server_identity(certificates(cert_pem), private_key(key_pem)) {
        Ok((chain, key)) => match single_certificate(chain, key) {
            Ok(config) => Ok(config),
            Err(error) => Err(ServerConfigError::Rejected(error)),
        },
        Err(error) => Err(error),
    }
}

/// Whether `rustls::pki_types::ServerName` takes a text: as a DNS name or as an
/// address.
pub uninterp spec fn is_server_name(text: Seq<char>) -> bool;

/// The name under which a TLS server is expected, by the conversion from `String`
/// to `rustls::pki_types::ServerName`. Whether there is one depends on the text
/// alone; of the name itself nothing is claimed.
#[verifier::external_body]
fn parse_server_name(text: String) -> (r: Result<
    rustls::pki_types::ServerName<'static>,
    rustls::pki_types::InvalidDnsNameError,
>)
    ensures
        r is Ok <==> is_server_name(text@),
{
    rustls::pki_types::ServerName::try_from(text)
}

/// Whether reading a text as the name of a server may come to `r`.
pub closed spec fn name_result(
    text: Seq<char>,
    r: Result<
        rustls::pki_types::ServerName<'static>,
        rustls::pki_types::InvalidDnsNameError,
    >,
) -> bool {
    exists|given: String| given@ == text && #[trigger] call_ensures(parse_server_name, (given,), r)
}

/// The name under which the TLS server of `host` is expected.
pub fn server_name(host: &str) -> (r: Result<
    rustls::pki_types::ServerName<'static>,
    rustls::pki_types::InvalidDnsNameError,
>)
    ensures
        name_result(host@, r),
        r is Ok <==> is_server_name(host@),
{
    parse_server_name(host.to_owned())
}

/// `rustls::RootCertStore::empty` makes a store without any authority. Nothing is
/// claimed of its result.
pub assume_specification[ rustls::RootCertStore::empty ]() -> rustls::RootCertStore;

/// The store together with the authorities of `webpki_roots::TLS_SERVER_ROOTS`.
/// Nothing is claimed of the result.
#[verifier::external_body]
fn with_public_roots(store: rustls::RootCertStore) -> rustls::RootCertStore {
    let mut store = store;
    store.extend(webpki_roots::TLS_SERVER_ROOTS.iter().cloned());
    store
}

/// The settings of a client that trusts these authorities and shows no
/// certificate of its own, by `rustls::ClientConfig::builder`. Nothing is claimed
/// of the result.
#[verifier::external_body]
fn anonymous_client(roots: rustls::RootCertStore) -> rustls::ClientConfig {
    rustls::ClientConfig::builder().with_root_certificates(roots).with_no_client_auth()
}

/// Whether `r` may be the settings of a client that trusts the public authorities
/// and no others.
pub closed spec fn client_result(r: rustls::ClientConfig) -> bool {
    exists|store: rustls::RootCertStore, roots: rustls::RootCertStore|
        {
            &&& call_ensures(rustls::RootCertStore::empty, (), store)
            &&& #[trigger] call_ensures(with_public_roots, (store,), roots)
            &&& call_ensures(anonymous_client, (roots,), r)
        }
}

/// The settings for connections to targets.
pub fn build_client_config() -> (r: rustls::ClientConfig)
    ensures
        client_result(r),
{
    let store = rustls::RootCertStore::empty();
    let roots = with_public_roots(store);
    anonymous_client(roots)
}

/// A server is set up with the certificates in the one text and the private key in the
/// other. What is wrong with the certificates goes before what is wrong with the key,
/// and only where both are there can they be rejected together.
proof fn law_server_config(
    cert_pem: &str,
    key_pem: &str,
    r: Result<rustls::ServerConfig, ServerConfigError>,
)
    requires
        call_ensures(build_server_config, (cert_pem, key_pem), r),
    ensures
        pem_certificates(cert_pem@) is None <==> r matches Err(ServerConfigError::Certificates(_)),
        r matches Err(ServerConfigError::Certificates(error)) ==> call_ensures(
            certificates,
            (cert_pem,),
            Err(error),
        ),
        pem_certificates(cert_pem@) is Some && pem_private_key(key_pem@) is None <==> r matches Err(
            ServerConfigError::PrivateKey(_),
        ),
        r matches Err(ServerConfigError::PrivateKey(error)) ==> call_ensures(
            private_key,
            (key_pem,),
            Err(error),
        ),
        pem_certificates(cert_pem@) is Some && pem_private_key(key_pem@) == Some(
            None::<PrivateKeySpec>,
        ) <==> r matches Err(ServerConfigError::NoPrivateKey),
        r matches Ok(config) ==> exists|chain: Vec<Vec<u8>>, key: PrivateKey|
            {
                &&& pem_certificates(cert_pem@) == Some(byte_strings(chain@))
                &&& pem_private_key(key_pem@) == Some(Some(key@))
                &&& #[trigger] call_ensures(single_certificate, (chain, key), Ok(config))
            },
        r matches Err(ServerConfigError::Rejected(error)) ==> exists|
            chain: Vec<Vec<u8>>,
            key: PrivateKey,
        | {
            &&& pem_certificates(cert_pem@) == Some(byte_strings(chain@))
            &&& pem_private_key(key_pem@) == Some(Some(key@))
            &&& #[trigger] call_ensures(single_certificate, (chain, key), Err(error))
        },
{
}

/// A server is expected under the very text of its host.
proof fn law_server_name(
    host: &str,
    r: Result<
        rustls::pki_types::ServerName<'static>,
        rustls::pki_types::InvalidDnsNameError,
    >,
)
    requires
        call_ensures(server_name, (host,), r),
    ensures
        exists|text: String| text@ == host@ && #[trigger] call_ensures(
            parse_server_name,
            (text,),
            r,
        ),
        r is Ok <==> is_server_name(host@),
{
}

/// A client trusts the public authorities, starting from none, and shows no certificate
/// of its own.
proof fn law_client_config(r: rustls::ClientConfig)
    requires
        call_ensures(build_client_config, (), r),
    ensures
        exists|none: rustls::RootCertStore, roots: rustls::RootCertStore|
            {
                &&& call_ensures(rustls::RootCertStore::empty, (), none)
                &&& #[trigger] call_ensures(with_public_roots, (none,), roots)
                &&& call_ensures(anonymous_client, (roots,), r)
            },
{
}

} // verus!
