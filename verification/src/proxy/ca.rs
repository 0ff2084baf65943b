//! The local certificate authority: it issues a certificate for every host
//! that a client opens a tunnel to.

use super::leaf_cache::{law_leaves_are_independent, leaves_after, texts, LeafCache};
use super::stored::{check_contents, contents, contents_are_writable, is_read_from, pem_contents};
use rcgen::{BasicConstraints, CertificateParams, DistinguishedName, DnType, IsCa, KeyUsagePurpose};
use vstd::prelude::*;
use vstd::utf8::is_ascii_chars;

verus! {

/// A key pair of the `rcgen` crate.
#[verifier::external_type_specification]
#[verifier::external_body]
pub struct ExKeyPair(rcgen::KeyPair);

/// A certificate of the `rcgen` crate.
#[verifier::external_type_specification]
#[verifier::external_body]
pub struct ExCertificate(rcgen::Certificate);

/// `rcgen::KeyPair::generate` makes a fresh random key pair, or fails where the
/// system has no randomness to give. Nothing is claimed of its result.
pub assume_specification[ rcgen::KeyPair::generate ]() -> Result<rcgen::KeyPair, rcgen::Error>;

/// The bytes of the key that `rcgen::KeyPair::from_pem` takes from a PEM text, or
/// `None` where the text is not PEM.
pub uninterp spec fn key_bytes(text: Seq<char>) -> Option<Seq<u8>>;

/// `rcgen::KeyPair::from_pem` reads a PKCS #8 key pair from PEM text. It fails on a
/// text that is not PEM. Whether it succeeds on one that is also depends on the
/// randomness of the system, so that is not claimed.
pub assume_specification[ rcgen::KeyPair::from_pem ](pem_str: &str) -> (r: Result<
    rcgen::KeyPair,
    rcgen::Error,
>)
    ensures
        r is Ok ==> key_bytes(pem_str@) is Some,
;

/// Whether reading the text of a key may come to a key.
pub open spec fn is_key_read(key_pem: &str, key: rcgen::KeyPair) -> bool {
    call_ensures(
        rcgen::KeyPair::from_pem,
        (key_pem,),
        Ok::<rcgen::KeyPair, rcgen::Error>(key),
    )
}

/// Whether a key pair was generated or read here. Such a pair holds its private
/// key itself; it does not leave the signing to a remote party.
pub open spec fn is_local(key: rcgen::KeyPair) -> bool {
    ||| call_ensures(rcgen::KeyPair::generate, (), Ok::<rcgen::KeyPair, rcgen::Error>(key))
    ||| exists|pem: &str| is_key_read(pem, key)
}

/// Whether two texts hold the same key.
pub open spec fn holds_same_key(a: Seq<char>, b: Seq<char>) -> bool {
    key_bytes(a) == key_bytes(b)
}

/// `rcgen::KeyPair::serialize_pem` writes a key pair as PKCS #8 PEM text. It
/// panics on a remote key pair. A key pair keeps the bytes that it was read from,
/// and these are the bytes in the text that it writes.
pub assume_specification[ rcgen::KeyPair::serialize_pem ](key: &rcgen::KeyPair) -> (r: String)
    requires
        is_local(*key),
    ensures
        key_bytes(r@) is Some,
        forall|text: &str| #[trigger]
            is_key_read(text, *key) ==> holds_same_key(r@, text@),
;

/// Whether a certificate may have been made for a new authority.
pub open spec fn is_new_authority(certificate: rcgen::Certificate) -> bool {
    exists|key: rcgen::KeyPair, r: Result<rcgen::Certificate, rcgen::Error>| #[trigger]
        made(authority(), key, r) && r == Ok::<_, rcgen::Error>(certificate)
}

/// `rcgen::Certificate::pem` writes a certificate as PEM text. The text of a new
/// authority is one that `rcgen::CertificateParams::from_ca_cert_pem` reads back,
/// and holds nothing that could not be written: the two attributes of its subject
/// are common ones with UTF-8 values, it has neither alternative names nor
/// constraints, and it is valid from 1975 to 4096. Of other certificates nothing
/// is claimed.
pub assume_specification[ rcgen::Certificate::pem ](certificate: &rcgen::Certificate) -> (r: String)
    ensures
        is_new_authority(*certificate) ==> is_loadable(r@),
;

/// Whether all that parameters hold can be written into a certificate: they were
/// made here from a profile, or read from a text whose contents can be written.
pub open spec fn is_writable(params: rcgen::CertificateParams) -> bool {
    ||| exists|profile: ProfileSpec, r: Result<rcgen::CertificateParams, rcgen::Error>| #[trigger]
        params_result(profile, r) && r == Ok::<_, rcgen::Error>(params)
    ||| exists|text: &str| #[trigger]
        is_read_from(params, text) && (pem_contents(text@) matches Some(read)
            && contents_are_writable(read))
}

/// `rcgen::CertificateParams::self_signed` makes a certificate that its own key
/// signs. The signature takes randomness, so nothing is claimed of the result. It
/// panics on parameters that cannot be written, and a remote key pair may do
/// anything.
pub assume_specification[ rcgen::CertificateParams::self_signed ](
    params: rcgen::CertificateParams,
    key_pair: &rcgen::KeyPair,
) -> Result<rcgen::Certificate, rcgen::Error>
    requires
        is_writable(params),
        is_local(*key_pair),
;

/// What kind of attribute of a subject a value is.
#[derive(Debug, Clone, Copy, PartialEq, Eq)]
pub enum Attribute {
    CommonName,
    OrganizationName,
}

/// Whether a certificate may sign others.
#[derive(Debug, Clone, Copy, PartialEq, Eq)]
pub enum Role {
    /// It signs nothing.
    EndEntity,
    /// It signs certificates, in chains of any length.
    Authority,
}

/// What the key of a certificate may be used for.
#[derive(Debug, Clone, Copy, PartialEq, Eq)]
pub enum KeyUsage {
    KeyCertSign,
    CrlSign,
}

/// What a certificate says of its subject.
#[derive(Debug)]
pub struct Profile {
    /// The alternative names: host names or addresses.
    pub names: Vec<String>,
    /// The attributes of the subject, in order.
    pub subject: Vec<(Attribute, String)>,
    pub role: Role,
    pub usages: Vec<KeyUsage>,
}

/// The contents of a `Profile`.
#[verifier::ext_equal]
pub struct ProfileSpec {
    pub names: Seq<Seq<char>>,
    pub subject: Seq<(Attribute, Seq<char>)>,
    pub role: Role,
    pub usages: Seq<KeyUsage>,
}

impl View for Profile {
    type V = ProfileSpec;

    open spec fn view(&self) -> ProfileSpec {
        ProfileSpec {
            names: self.names@.map_values(|name: String| name@),
            subject: self.subject@.map_values(|entry: (Attribute, String)| (entry.0, entry.1@)),
            role: self.role,
            usages: self.usages@,
        }
    }
}

/// The common name of the authority.
pub const AUTHORITY_NAME: &'static str = "gost-upstream local CA (dev, do not trust globally)";

/// The organization of the authority.
pub const AUTHORITY_ORGANIZATION: &'static str = "gost-upstream";

/// The profile of the authority: no host, a fixed subject, and the right to sign
/// certificates and revocation lists.
pub open spec fn authority() -> ProfileSpec {
    ProfileSpec {
        names: Seq::empty(),
        subject: seq![
            (Attribute::CommonName, AUTHORITY_NAME@),
            (Attribute::OrganizationName, AUTHORITY_ORGANIZATION@),
        ],
        role: Role::Authority,
        usages: seq![KeyUsage::KeyCertSign, KeyUsage::CrlSign],
    }
}

/// The profile of the certificate for one host: the host is both the one
/// alternative name and the common name, and the key signs nothing.
pub open spec fn leaf(host: Seq<char>) -> ProfileSpec {
    ProfileSpec {
        names: seq![host],
        subject: seq![(Attribute::CommonName, host)],
        role: Role::EndEntity,
        usages: Seq::empty(),
    }
}

/// The profile of the authority.
pub fn authority_profile() -> (r: Profile)
    ensures
        r@ == authority(),
{
    let mut subject: Vec<(Attribute, String)> = Vec::new();
    subject.push((Attribute::CommonName, AUTHORITY_NAME.to_owned()));
    subject.push((Attribute::OrganizationName, AUTHORITY_ORGANIZATION.to_owned()));
    let mut usages: Vec<KeyUsage> = Vec::new();
    usages.push(KeyUsage::KeyCertSign);
    usages.push(KeyUsage::CrlSign);
    let r = Profile { names: Vec::new(), subject, role: Role::Authority, usages };
    assert(r@ =~~= authority());
    r
}

/// The profile of the certificate for `host`.
pub fn leaf_profile(host: &str) -> (r: Profile)
    ensures
        r@ == leaf(host@),
{
    let mut names: Vec<String> = Vec::new();
    names.push(host.to_owned());
    let mut subject: Vec<(Attribute, String)> = Vec::new();
    subject.push((Attribute::CommonName, host.to_owned()));
    let r = Profile { names, subject, role: Role::EndEntity, usages: Vec::new() };
    assert(r@ =~~= leaf(host@));
    r
}

/// A distinguished name that holds these attributes, pushed one after the other
/// with `rcgen::DistinguishedName::push`. Nothing is claimed of it.
#[verifier::external_body]
fn distinguished_name(subject: &Vec<(Attribute, String)>) -> rcgen::DistinguishedName {
    let mut name = DistinguishedName::new();
    for (attribute, value) in subject {
        let kind = match attribute {
            Attribute::CommonName => DnType::CommonName,
            Attribute::OrganizationName => DnType::OrganizationName,
        };
        name.push(kind, value);
    }
    name
}

/// The parameters of a certificate, made with `rcgen::CertificateParams::new`
/// and the setting of three fields. That function takes each alternative name as
/// an address where it parses as one and as a DNS name otherwise; it fails
/// exactly if a name is not ASCII. Of the parameters nothing is claimed.
#[verifier::external_body]
fn certificate_params(
    names: Vec<String>,
    subject: rcgen::DistinguishedName,
    role: Role,
    usages: Vec<KeyUsage>,
) -> (r: Result<rcgen::CertificateParams, rcgen::Error>)
    ensures
        r is Ok <==> forall|i: int| 0 <= i < names@.len() ==> is_ascii_chars(#[trigger] names@[i]@),
{
    let mut params = CertificateParams::new(names)?;
    params.distinguished_name = subject;
    params.is_ca = match role {
        Role::EndEntity => IsCa::NoCa,
        Role::Authority => IsCa::Ca(BasicConstraints::Unconstrained),
    };
    let purposes = usages.iter().map(|usage| match usage {
        KeyUsage::KeyCertSign => KeyUsagePurpose::KeyCertSign,
        KeyUsage::CrlSign => KeyUsagePurpose::CrlSign,
    });
    params.key_usages = purposes.collect();
    Ok(params)
}

/// Signs a certificate for `key` with the key of an authority, by
/// `rcgen::CertificateParams::signed_by`. The signature takes randomness, so
/// nothing is claimed of the result. It panics on parameters that cannot be
/// written; the name of the issuer was written when its own certificate was made.
#[verifier::external_body]
fn signed_by(
    params: rcgen::CertificateParams,
    key: &rcgen::KeyPair,
    issuer: &rcgen::Certificate,
    issuer_key: &rcgen::KeyPair,
) -> Result<rcgen::Certificate, rcgen::Error>
    requires
        is_writable(params),
        is_local(*key),
        is_local(*issuer_key),
{
    params.signed_by(key, issuer, issuer_key)
}

/// Whether `r` is what became of the parameters of a certificate with this
/// profile.
pub closed spec fn params_result(
    profile: ProfileSpec,
    r: Result<rcgen::CertificateParams, rcgen::Error>,
) -> bool {
    exists|p: Profile, subject: rcgen::DistinguishedName|
        #![trigger call_ensures(distinguished_name, (&p.subject,), subject)]
        {
            &&& p@ == profile
            &&& call_ensures(distinguished_name, (&p.subject,), subject)
            &&& call_ensures(certificate_params, (p.names, subject, p.role, p.usages), r)
        }
}

/// The parameters of a certificate with this profile.
fn params_for(profile: Profile) -> (r: Result<rcgen::CertificateParams, rcgen::Error>)
    ensures
        params_result(profile@, r),
        r is Ok <==> forall|i: int|
            0 <= i < profile@.names.len() ==> is_ascii_chars(#[trigger] profile@.names[i]),
{
    let ghost given = profile;
    let subject = distinguished_name(&profile.subject);
    let r = certificate_params(profile.names, subject, profile.role, profile.usages);
    assert(forall|i: int| 0 <= i < given@.names.len() ==> #[trigger] given.names@[i]@ == given@.names[i]);
    r
}

/// Why the authority could not be set up, or a certificate could not be issued.
#[derive(Debug)]
pub enum CaError {
    /// No key pair could be read or generated.
    Key(rcgen::Error),
    /// The contents of a certificate were refused.
    Certificate(rcgen::Error),
    /// A stored certificate holds what cannot be written into a new one.
    Unwritable,
    /// A certificate could not be signed.
    Signature(rcgen::Error),
}

/// The root authority. Clients are made to trust its certificate; the
/// certificates for single hosts are signed with its key on demand, for the host
/// that the client itself has named.
pub struct Ca {
    key_pair: rcgen::KeyPair,
    cert: rcgen::Certificate,
    cert_pem: String,
    leaf_cache: LeafCache,
}

/// Whether signing anew, with `key`, the certificate that has this text may come
/// to `r`.
pub open spec fn remade(
    cert_pem: &str,
    key: rcgen::KeyPair,
    r: Result<rcgen::Certificate, rcgen::Error>,
) -> bool {
    exists|params: rcgen::CertificateParams|
        is_read_from(params, cert_pem) && #[trigger] call_ensures(
            rcgen::CertificateParams::self_signed,
            (params, &key),
            r,
        )
}

/// Whether a text holds the certificate of an authority that can be written anew.
pub open spec fn is_loadable(cert_pem: Seq<char>) -> bool {
    pem_contents(cert_pem) matches Some(read) && contents_are_writable(read)
}

/// Whether reading an authority from the text of its certificate and of its key
/// may come to `r`. The key is read first, then the certificate, and what the
/// latter holds is looked at before it is signed. The certificate is made anew
/// from the parameters that the text gives, but the text itself stays what clients
/// are asked to trust.
pub open spec fn load_result(cert_pem: &str, key_pem: &str, r: Result<Ca, CaError>) -> bool {
    match r {
        Ok(ca) => {
            &&& is_key_read(key_pem, ca.key())
            &&& is_loadable(cert_pem@)
            &&& remade(cert_pem, ca.key(), Ok(ca.certificate()))
            &&& ca.text() == cert_pem@
            &&& ca.leaves() == Map::<Seq<char>, (Seq<char>, Seq<char>)>::empty()
        },
        Err(CaError::Key(error)) => call_ensures(rcgen::KeyPair::from_pem, (key_pem,), Err(error)),
        Err(CaError::Certificate(error)) => {
            &&& exists|key: rcgen::KeyPair| is_key_read(key_pem, key)
            &&& pem_contents(cert_pem@) is None
            &&& call_ensures(
                rcgen::CertificateParams::from_ca_cert_pem,
                (cert_pem,),
                Err(error),
            )
        },
        Err(CaError::Unwritable) => {
            &&& exists|key: rcgen::KeyPair| is_key_read(key_pem, key)
            &&& pem_contents(cert_pem@) is Some
            &&& !is_loadable(cert_pem@)
        },
        Err(CaError::Signature(error)) => exists|
            key: rcgen::KeyPair,
            signed: Result<rcgen::Certificate, rcgen::Error>,
        | {
            &&& is_key_read(key_pem, key)
            &&& is_loadable(cert_pem@)
            &&& #[trigger] remade(cert_pem, key, signed)
            &&& signed == Err::<rcgen::Certificate, _>(error)
        },
    }
}

/// Whether a fresh key may be `key`, and a certificate with this profile, signed
/// with it, may come to `r`.
pub open spec fn made(
    profile: ProfileSpec,
    key: rcgen::KeyPair,
    r: Result<rcgen::Certificate, rcgen::Error>,
) -> bool {
    &&& call_ensures(rcgen::KeyPair::generate, (), Ok(key))
    &&& exists|params: rcgen::CertificateParams|
        params_result(profile, Ok(params)) && #[trigger] call_ensures(
            rcgen::CertificateParams::self_signed,
            (params, &key),
            r,
        )
}

/// Whether making a new authority may come to `r`: the authority and the text of
/// its key. Its contents are never refused.
pub open spec fn generate_result(r: Result<(Ca, String), CaError>) -> bool {
    match r {
        Ok((ca, key_pem)) => {
            &&& made(authority(), ca.key(), Ok(ca.certificate()))
            &&& exists|cert_pem: String|
                #[trigger] call_ensures(rcgen::Certificate::pem, (&ca.certificate(),), cert_pem)
                    && cert_pem@ == ca.text()
            &&& is_loadable(ca.text())
            &&& call_ensures(rcgen::KeyPair::serialize_pem, (&ca.key(),), key_pem)
            &&& ca.leaves() == Map::<Seq<char>, (Seq<char>, Seq<char>)>::empty()
        },
        Err(CaError::Key(error)) => call_ensures(rcgen::KeyPair::generate, (), Err(error)),
        Err(CaError::Certificate(_)) => false,
        Err(CaError::Unwritable) => false,
        Err(CaError::Signature(error)) => exists|
            key: rcgen::KeyPair,
            signed: Result<rcgen::Certificate, rcgen::Error>,
        | #[trigger]
            made(authority(), key, signed) && signed == Err::<rcgen::Certificate, _>(error),
    }
}

/// Whether setting up an authority may come to `r`. Where something is stored it is
/// loaded, and no key comes with it; otherwise a new authority is made, and its key
/// comes with it.
pub open spec fn authority_result(
    stored: Option<(&str, &str)>,
    r: Result<(Ca, Option<String>), CaError>,
) -> bool {
    match (stored, r) {
        (Some((cert_pem, key_pem)), Ok((ca, None))) => load_result(cert_pem, key_pem, Ok(ca)),
        (Some((cert_pem, key_pem)), Err(error)) => load_result(cert_pem, key_pem, Err(error)),
        (None, Ok((ca, Some(key_pem)))) => generate_result(Ok((ca, key_pem))),
        (None, Err(error)) => generate_result(Err(error)),
        _ => false,
    }
}

/// Whether signing a certificate for `key` with the key of an issuer may come to
/// `r`.
pub closed spec fn sign_result(
    params: rcgen::CertificateParams,
    key: rcgen::KeyPair,
    issuer: rcgen::Certificate,
    issuer_key: rcgen::KeyPair,
    r: Result<rcgen::Certificate, rcgen::Error>,
) -> bool {
    call_ensures(signed_by, (params, &key, &issuer, &issuer_key), r)
}

/// Whether a fresh key may be `key`, and a certificate for `host` and that key,
/// signed by the issuer, may come to `r`.
pub open spec fn leaf_signed(
    issuer: rcgen::Certificate,
    issuer_key: rcgen::KeyPair,
    host: Seq<char>,
    key: rcgen::KeyPair,
    r: Result<rcgen::Certificate, rcgen::Error>,
) -> bool {
    &&& call_ensures(rcgen::KeyPair::generate, (), Ok(key))
    &&& exists|params: rcgen::CertificateParams|
        params_result(leaf(host), Ok(params)) && #[trigger] sign_result(
            params,
            key,
            issuer,
            issuer_key,
            r,
        )
}

/// Whether issuing a certificate for `host` may come to `issued`: the texts of
/// the certificate and of its key.
pub open spec fn leaf_result(
    issuer: rcgen::Certificate,
    issuer_key: rcgen::KeyPair,
    host: Seq<char>,
    issued: Result<(String, String), CaError>,
) -> bool {
    match issued {
        Ok((cert_pem, key_pem)) => exists|
            key: rcgen::KeyPair,
            signed: Result<rcgen::Certificate, rcgen::Error>,
        | {
            &&& #[trigger] leaf_signed(issuer, issuer_key, host, key, signed)
            &&& signed matches Ok(cert)
            &&& call_ensures(rcgen::Certificate::pem, (&cert,), cert_pem)
            &&& call_ensures(rcgen::KeyPair::serialize_pem, (&key,), key_pem)
        },
        Err(CaError::Certificate(error)) => params_result(leaf(host), Err(error)),
        Err(CaError::Key(error)) => call_ensures(rcgen::KeyPair::generate, (), Err(error)),
        Err(CaError::Unwritable) => false,
        Err(CaError::Signature(error)) => exists|
            key: rcgen::KeyPair,
            signed: Result<rcgen::Certificate, rcgen::Error>,
        | #[trigger]
            leaf_signed(issuer, issuer_key, host, key, signed) && signed == Err::<
                rcgen::Certificate,
                _,
            >(error),
    }
}

/// Whether an authority may answer the request for the certificate of `host` with
/// `r`, and what it is afterwards: a certificate that is remembered is given out
/// again, any other one is issued and then remembered. The contents of a
/// certificate are refused exactly if the name of the host is not ASCII.
pub open spec fn leaf_answer(
    before: Ca,
    host: Seq<char>,
    r: Result<(String, String), CaError>,
    after: Ca,
) -> bool {
    &&& after.key() == before.key()
    &&& after.certificate() == before.certificate()
    &&& after.text() == before.text()
    &&& if before.leaves().dom().contains(host) {
        &&& r matches Ok(pair)
        &&& texts(pair) == before.leaves()[host]
        &&& after.leaves() == before.leaves()
    } else {
        &&& leaf_result(before.certificate(), before.key(), host, r)
        &&& after.leaves() == leaves_after(before.leaves(), host, r)
        &&& (r matches Err(CaError::Certificate(_)) <==> !is_ascii_chars(host))
    }
}

impl Ca {
    #[verifier::type_invariant]
    spec fn well_formed(self) -> bool {
        is_local(self.key_pair)
    }

    /// The key that signs.
    pub closed spec fn key(&self) -> rcgen::KeyPair {
        self.key_pair
    }

    /// The certificate in whose name is signed.
    pub closed spec fn certificate(&self) -> rcgen::Certificate {
        self.cert
    }

    /// The text of the certificate that clients are asked to trust.
    pub closed spec fn text(&self) -> Seq<char> {
        self.cert_pem@
    }

    /// The certificates that have been issued so far, by host.
    pub closed spec fn leaves(&self) -> Map<Seq<char>, (Seq<char>, Seq<char>)> {
        self.leaf_cache@
    }

    /// The authority whose certificate and key have these texts.
    pub fn from_pem(cert_pem: &str, key_pem: &str) -> (r: Result<Ca, CaError>)
        ensures
            load_result(cert_pem, key_pem, r),
    {
        let read = rcgen::KeyPair::from_pem(key_pem);
        let key_pair = match read {
            Ok(key_pair) => key_pair,
            Err(error) => return Err(CaError::Key(error)),
        };
        assert(is_key_read(key_pem, key_pair));
        let parsed = rcgen::CertificateParams::from_ca_cert_pem(cert_pem);
        let params = match parsed {
            Ok(params) => params,
            Err(error) => return Err(CaError::Certificate(error)),
        };
        assert(is_read_from(params, cert_pem));
        if !check_contents(&contents(&params)) {
            return Err(CaError::Unwritable);
        }
        let signed = params.self_signed(&key_pair);
        assert(remade(cert_pem, key_pair, signed));
        match signed {
            Ok(cert) => {
                let leaf_cache = LeafCache::new();
                let ca = Ca { key_pair, cert, cert_pem: cert_pem.to_owned(), leaf_cache };
                Ok(ca)
            },
            Err(error) => Err(CaError::Signature(error)),
        }
    }

    /// A new authority, and the text of its key.
    pub fn generate() -> (r: Result<(Ca, String), CaError>)
        ensures
            generate_result(r),
    {
        let params = match params_for(authority_profile()) {
            Ok(params) => params,
            Err(error) => return Err(CaError::Certificate(error)),
        };
        let generated = rcgen::KeyPair::generate();
        let key_pair = match generated {
            Ok(key_pair) => key_pair,
            Err(error) => return Err(CaError::Key(error)),
        };
        let signed = params.self_signed(&key_pair);
        assert(made(authority(), key_pair, signed));
        match signed {
            Ok(cert) => {
                let cert_pem = cert.pem();
                let key_pem = key_pair.serialize_pem();
                let ca = Ca { key_pair, cert, cert_pem, leaf_cache: LeafCache::new() };
                assert(call_ensures(rcgen::Certificate::pem, (&ca.certificate(),), cert_pem));
                assert(ca.leaves() == Map::<Seq<char>, (Seq<char>, Seq<char>)>::empty());
                Ok((ca, key_pem))
            },
            Err(error) => Err(CaError::Signature(error)),
        }
    }

    /// The text of the certificate, for clients to import.
    pub fn cert_pem(&self) -> (r: &str)
        ensures
            r@ == self.text(),
    {
        self.cert_pem.as_str()
    }

    /// Issues a certificate for `host`. Its contents are refused exactly if the
    /// name of the host is not ASCII.
    fn issue(&self, host: &str) -> (issued: Result<(String, String), CaError>)
        ensures
            leaf_result(self.certificate(), self.key(), host@, issued),
            issued matches Err(CaError::Certificate(_)) <==> !is_ascii_chars(host@),
    {
        let profile = leaf_profile(host);
        assert(profile@.names == seq![host@]);
        assert(profile@.names[0] == host@);
        let params = match params_for(profile) {
            Ok(params) => params,
            Err(error) => return Err(CaError::Certificate(error)),
        };
        let generated = rcgen::KeyPair::generate();
        let key = match generated {
            Ok(key) => key,
            Err(error) => return Err(CaError::Key(error)),
        };
        let ghost given = params;
        proof {
            use_type_invariant(self);
        }
        let signed = signed_by(params, &key, &self.cert, &self.key_pair);
        assert(sign_result(given, key, self.certificate(), self.key(), signed));
        assert(leaf_signed(self.certificate(), self.key(), host@, key, signed));
        match signed {
            Ok(cert) => {
                let cert_pem = cert.pem();
                let key_pem = key.serialize_pem();
                Ok((cert_pem, key_pem))
            },
            Err(error) => Err(CaError::Signature(error)),
        }
    }

    /// The texts of the certificate for `host` and of its key. They are made
    /// when the host is first asked for, and stay the same from then on.
    pub fn leaf_for(&mut self, host: &str) -> (r: Result<(String, String), CaError>)
        ensures
            leaf_answer(*old(self), host@, r, *final(self)),
    {
        match self.leaf_cache.get(host) {
            Some(pair) => Ok(pair),
            None => {
                let issued = self.issue(host);
                let mut leaf_cache = LeafCache::new();
                proof {
                    use_type_invariant(&*self);
                }
                std::mem::swap(&mut leaf_cache, &mut self.leaf_cache);
                let r = leaf_cache.keep(host, issued);
                self.leaf_cache = leaf_cache;
                r
            },
        }
    }

    /// The authority whose certificate and key have the stored texts, or a new one
    /// where nothing is stored. The text of a new key comes with it, to be stored.
    pub fn load_or_generate(stored: Option<(&str, &str)>) -> (r: Result<
        (Ca, Option<String>),
        CaError,
    >)
        ensures
            authority_result(stored, r),
    {
        match stored {
            Some((cert_pem, key_pem)) => match Ca::from_pem(cert_pem, key_pem) {
                Ok(ca) => Ok((ca, None)),
                Err(error) => Err(error),
            },
            None => match Ca::generate() {
                Ok((ca, key_pem)) => Ok((ca, Some(key_pem))),
                Err(error) => Err(error),
            },
        }
    }
}

/// Whether reading a key from this text cannot fail.
pub open spec fn key_reading_succeeds(key_pem: &str) -> bool {
    forall|error: rcgen::Error|
        !#[trigger] call_ensures(rcgen::KeyPair::from_pem, (key_pem,), Err(error))
}

/// Whether signing anew the certificate that has this text cannot fail.
pub open spec fn signing_succeeds(cert_pem: &str) -> bool {
    forall|key: rcgen::KeyPair, signed: Result<rcgen::Certificate, rcgen::Error>| #[trigger]
        remade(cert_pem, key, signed) ==> signed is Ok
}

/// An authority is made once and then loaded: when the texts of a new authority are
/// stored, setting up an authority again gives one with the very same certificate
/// text and the very same key, and nothing to store. It succeeds unless reading the
/// key or signing fails, both of which draw on the randomness of the system.
pub proof fn law_new_authority_is_loaded_again(
    first: Result<(Ca, Option<String>), CaError>,
    cert_pem: &str,
    key_pem: &str,
    second: Result<(Ca, Option<String>), CaError>,
)
    requires
        authority_result(None, first),
        first matches Ok((ca, Some(new_key))) && cert_pem@ == ca.text() && key_pem@ == new_key@,
        authority_result(Some((cert_pem, key_pem)), second),
    ensures
        key_reading_succeeds(key_pem) && signing_succeeds(cert_pem) ==> second is Ok,
        match second {
            Ok((again, to_store)) => {
                &&& again.text() == (first->Ok_0).0.text()
                &&& forall|written: String| #[trigger]
                    call_ensures(rcgen::KeyPair::serialize_pem, (&again.key(),), written)
                        ==> holds_same_key(written@, key_pem@)
                &&& to_store is None
                &&& again.leaves() == Map::<Seq<char>, (Seq<char>, Seq<char>)>::empty()
            },
            Err(error) => error is Key || error is Signature,
        },
{
    if let Ok((again, _)) = second {
        let key = again.key();
        assert forall|written: String| #[trigger]
            call_ensures(rcgen::KeyPair::serialize_pem, (&key,), written) implies holds_same_key(
            written@,
            key_pem@,
        ) by {
            let args = (&key,);
            assert(is_key_read(key_pem, *args.0));
            assert(call_ensures(rcgen::KeyPair::serialize_pem, args, written));
        }
    }
}

/// Whether an authority went through these states as it answered one request
/// after the other.
pub open spec fn is_history(
    states: Seq<Ca>,
    hosts: Seq<Seq<char>>,
    answers: Seq<Result<(String, String), CaError>>,
) -> bool {
    &&& states.len() == hosts.len() + 1
    &&& answers.len() == hosts.len()
    &&& forall|i: int|
        0 <= i < hosts.len() ==> leaf_answer(
            states[i],
            #[trigger] hosts[i],
            answers[i],
            states[i + 1],
        )
}

/// Once a certificate for a host has been given out, every later request for that
/// host is answered with the same texts, whatever was asked for in between.
pub proof fn law_leaf_is_issued_once(
    states: Seq<Ca>,
    hosts: Seq<Seq<char>>,
    answers: Seq<Result<(String, String), CaError>>,
    i: int,
    j: int,
)
    requires
        is_history(states, hosts, answers),
        0 <= i < j < hosts.len(),
        hosts[i] == hosts[j],
        answers[i] is Ok,
    ensures
        answers[j] matches Ok(pair) && texts(pair) == texts(answers[i]->Ok_0),
{
    lemma_leaf_is_remembered(states, hosts, answers, i, j);
    assert(leaf_answer(states[j], hosts[j], answers[j], states[j + 1]));
}

/// A certificate that has been given out is remembered from then on.
proof fn lemma_leaf_is_remembered(
    states: Seq<Ca>,
    hosts: Seq<Seq<char>>,
    answers: Seq<Result<(String, String), CaError>>,
    i: int,
    j: int,
)
    requires
        is_history(states, hosts, answers),
        0 <= i < j <= hosts.len(),
        answers[i] is Ok,
    ensures
        states[j].leaves().dom().contains(hosts[i]),
        states[j].leaves()[hosts[i]] == texts(answers[i]->Ok_0),
    decreases j - i,
{
    let last = j - 1;
    assert(leaf_answer(states[last], hosts[last], answers[last], states[last + 1]));
    if i < last {
        lemma_leaf_is_remembered(states, hosts, answers, i, last);
        if hosts[last] != hosts[i] {
            law_leaves_are_independent(
                states[last].leaves(),
                hosts[i],
                hosts[last],
                answers[last],
            );
        }
    }
}

/// The texts of a list of names.
spec fn name_texts(names: Seq<String>) -> Seq<Seq<char>> {
    names.map_values(|name: String| name@)
}

/// The texts of a list of attributes.
spec fn attribute_texts(subject: Seq<(Attribute, String)>) -> Seq<(Attribute, Seq<char>)> {
    subject.map_values(|entry: (Attribute, String)| (entry.0, entry.1@))
}

/// The parameters of a certificate are made from exactly the names, the attributes,
/// the role and the usages in its profile.
proof fn law_params_are_those_of_profile(
    profile: Profile,
    r: Result<rcgen::CertificateParams, rcgen::Error>,
)
    requires
        params_result(profile@, r),
    ensures
        exists|
            names: Vec<String>,
            attributes: Vec<(Attribute, String)>,
            usages: Vec<KeyUsage>,
            subject: rcgen::DistinguishedName,
        | {
            &&& name_texts(names@) == name_texts(profile.names@)
            &&& attribute_texts(attributes@) == attribute_texts(profile.subject@)
            &&& usages@ == profile.usages@
            &&& #[trigger] call_ensures(distinguished_name, (&attributes,), subject)
            &&& #[trigger] call_ensures(
                certificate_params,
                (names, subject, profile.role, usages),
                r,
            )
        },
{
    let (p, subject) = choose|p: Profile, subject: rcgen::DistinguishedName|
        #![trigger call_ensures(distinguished_name, (&p.subject,), subject)]
        {
            &&& p@ == profile@
            &&& call_ensures(distinguished_name, (&p.subject,), subject)
            &&& call_ensures(certificate_params, (p.names, subject, p.role, p.usages), r)
        };
    assert(name_texts(p.names@) == p@.names);
    assert(attribute_texts(p.subject@) == p@.subject);
    assert(p.role == profile.role && p.usages@ == profile.usages@);
    let (attributes, names, usages) = (p.subject, p.names, p.usages);
    assert(call_ensures(distinguished_name, (&attributes,), subject));
    assert(call_ensures(certificate_params, (names, subject, profile.role, usages), r));
}

/// A certificate for a key is signed with the key of the issuer and in its name.
proof fn law_signed_by_issuer(
    params: rcgen::CertificateParams,
    key: rcgen::KeyPair,
    issuer: rcgen::Certificate,
    issuer_key: rcgen::KeyPair,
    r: Result<rcgen::Certificate, rcgen::Error>,
)
    requires
        sign_result(params, key, issuer, issuer_key, r),
    ensures
        call_ensures(signed_by, (params, &key, &issuer, &issuer_key), r),
{
}

} // verus!
