use gost_upstream::proxy::ca::{
    authority_profile, leaf_profile, Attribute, Ca, CaError, KeyUsage, Role, AUTHORITY_NAME,
    AUTHORITY_ORGANIZATION,
};
use gost_upstream::proxy::leaf_cache::LeafCache;
use gost_upstream::proxy::stored::{
    check_contents, check_moment, contents, Constraint, Contents, Moment, Names,
};
use gost_upstream::proxy::tls::{
    build_client_config, build_server_config, server_identity, server_name, PrivateKey,
    ServerConfigError,
};
use rcgen::{
    date_time_ymd, BasicConstraints, CertificateParams, DistinguishedName, DnType, DnValue,
    GeneralSubtree, IsCa, KeyPair, KeyUsagePurpose, NameConstraints, OtherNameValue,
    PrintableString, SanType,
};

fn text(value: &str) -> DnValue {
    DnValue::Utf8String(value.to_string())
}

fn generate() -> (Ca, String) {
    match Ca::load_or_generate(None) {
        Ok((ca, Some(key_pem))) => (ca, key_pem),
        Ok((_, None)) => panic!("a new key comes with its text"),
        Err(error) => panic!("{error:?}"),
    }
}

fn load(cert_pem: &str, key_pem: &str) -> Ca {
    match Ca::load_or_generate(Some((cert_pem, key_pem))) {
        Ok((ca, None)) => ca,
        Ok((_, Some(_))) => panic!("a stored key is not stored again"),
        Err(error) => panic!("{error:?}"),
    }
}

#[test]
fn profiles() {
    let authority = authority_profile();
    assert!(authority.names.is_empty());
    assert_eq!(
        authority.subject,
        vec![
            (Attribute::CommonName, "gost-upstream local CA (dev, do not trust globally)".to_string()),
            (Attribute::OrganizationName, "gost-upstream".to_string()),
        ]
    );
    assert_eq!(authority.role, Role::Authority);
    assert_eq!(authority.usages, vec![KeyUsage::KeyCertSign, KeyUsage::CrlSign]);
    let leaf = leaf_profile("example.com");
    assert_eq!(leaf.names, vec!["example.com".to_string()]);
    assert_eq!(leaf.subject, vec![(Attribute::CommonName, "example.com".to_string())]);
    assert_eq!(leaf.role, Role::EndEntity);
    assert!(leaf.usages.is_empty());
}

#[test]
fn new_authority_has_the_profile() {
    let (ca, _) = generate();
    let params = CertificateParams::from_ca_cert_pem(ca.cert_pem()).unwrap();
    let name = &params.distinguished_name;
    assert_eq!(name.get(&DnType::CommonName), Some(&text(AUTHORITY_NAME)));
    assert_eq!(name.get(&DnType::OrganizationName), Some(&text(AUTHORITY_ORGANIZATION)));
    let order: Vec<DnType> = name.iter().map(|(kind, _)| kind.clone()).collect();
    assert_eq!(order, vec![DnType::CommonName, DnType::OrganizationName]);
    assert_eq!(params.is_ca, IsCa::Ca(BasicConstraints::Unconstrained));
    assert_eq!(params.key_usages, vec![KeyUsagePurpose::KeyCertSign, KeyUsagePurpose::CrlSign]);
    assert!(params.subject_alt_names.is_empty());
}

#[test]
fn leaf_names_its_host() {
    let (mut ca, _) = generate();
    let (cert_pem, _) = ca.leaf_for("example.com").unwrap();
    let params = CertificateParams::from_ca_cert_pem(&cert_pem).unwrap();
    assert_eq!(params.distinguished_name.get(&DnType::CommonName), Some(&text("example.com")));
    assert!(matches!(
        params.subject_alt_names.as_slice(),
        [SanType::DnsName(name)] if name.as_str() == "example.com"
    ));
    assert!(!matches!(params.is_ca, IsCa::Ca(_)));
    assert!(params.key_usages.is_empty());
    let (cert_pem, _) = ca.leaf_for("127.0.0.1").unwrap();
    let params = CertificateParams::from_ca_cert_pem(&cert_pem).unwrap();
    assert!(matches!(params.subject_alt_names.as_slice(), [SanType::IpAddress(_)]));
}

#[test]
fn leaf_is_issued_once() {
    let (mut ca, _) = generate();
    let first = ca.leaf_for("a.example").unwrap();
    let other = ca.leaf_for("b.example").unwrap();
    assert_ne!(first, other);
    assert_eq!(ca.leaf_for("a.example").unwrap(), first);
    assert_eq!(ca.leaf_for("b.example").unwrap(), other);
    assert_ne!(generate().0.leaf_for("a.example").unwrap(), first);
}

#[test]
fn leaf_needs_an_ascii_host() {
    let (mut ca, _) = generate();
    assert!(matches!(ca.leaf_for("пример.рф"), Err(CaError::Certificate(_))));
    assert!(ca.leaf_for("").is_ok());
}

#[test]
fn stored_authority_is_loaded_again() {
    let (ca, key_pem) = generate();
    let mut loaded = load(ca.cert_pem(), &key_pem);
    assert_eq!(loaded.cert_pem(), ca.cert_pem());
    let (cert_pem, leaf_key_pem) = loaded.leaf_for("example.com").unwrap();
    assert!(build_server_config(&cert_pem, &leaf_key_pem).is_ok());
}

#[test]
fn bad_stored_texts_are_refused() {
    let (ca, key_pem) = generate();
    assert!(matches!(Ca::from_pem(ca.cert_pem(), "no key"), Err(CaError::Key(_))));
    assert!(matches!(Ca::from_pem("no certificate", "no key"), Err(CaError::Key(_))));
    assert!(matches!(Ca::from_pem("no certificate", &key_pem), Err(CaError::Certificate(_))));
    assert!(matches!(Ca::from_pem(&key_pem, &key_pem), Err(CaError::Certificate(_))));
}

#[test]
fn cache_keeps_certificates_but_no_failures() {
    let mut leaves = LeafCache::new();
    assert!(leaves.get("a").is_none());
    let failed = leaves.keep("a", Err(CaError::Signature(rcgen::Error::RingUnspecified)));
    assert!(matches!(failed, Err(CaError::Signature(rcgen::Error::RingUnspecified))));
    assert!(leaves.get("a").is_none());
    let pair = ("cert".to_string(), "key".to_string());
    assert_eq!(leaves.keep("a", Ok(pair.clone())).unwrap(), pair);
    assert_eq!(leaves.get("a"), Some(pair));
    assert!(leaves.get("b").is_none());
}

#[test]
fn server_needs_certificate_and_key() {
    let (mut ca, _) = generate();
    let (cert_pem, key_pem) = ca.leaf_for("example.com").unwrap();
    let (other_cert_pem, _) = ca.leaf_for("example.org").unwrap();
    assert!(build_server_config(&cert_pem, &key_pem).is_ok());
    assert!(matches!(
        build_server_config(&cert_pem, "no key here"),
        Err(ServerConfigError::NoPrivateKey)
    ));
    assert!(matches!(
        build_server_config(&cert_pem, &cert_pem),
        Err(ServerConfigError::NoPrivateKey)
    ));
    assert!(matches!(
        build_server_config(&other_cert_pem, &key_pem),
        Err(ServerConfigError::Rejected(_))
    ));
    let malformed = "-----BEGIN CERTIFICATE-----\n!!\n-----END CERTIFICATE-----\n";
    assert!(matches!(
        build_server_config(malformed, &key_pem),
        Err(ServerConfigError::Certificates(_))
    ));
    assert!(matches!(
        build_server_config(malformed, malformed),
        Err(ServerConfigError::Certificates(_))
    ));
    assert!(matches!(
        build_server_config(&cert_pem, malformed),
        Err(ServerConfigError::PrivateKey(_))
    ));
}

#[test]
fn identity_errors_have_an_order() {
    let broken = || std::io::Error::from(std::io::ErrorKind::InvalidData);
    let key = || PrivateKey::Pkcs8(vec![1]);
    assert!(matches!(
        server_identity(Err(broken()), Err(broken())),
        Err(ServerConfigError::Certificates(_))
    ));
    assert!(matches!(
        server_identity(Ok(vec![]), Err(broken())),
        Err(ServerConfigError::PrivateKey(_))
    ));
    assert!(matches!(
        server_identity(Ok(vec![]), Ok(None)),
        Err(ServerConfigError::NoPrivateKey)
    ));
    let (chain, key) = server_identity(Ok(vec![vec![2], vec![3]]), Ok(Some(key()))).unwrap();
    assert_eq!(chain, vec![vec![2], vec![3]]);
    assert!(matches!(key, PrivateKey::Pkcs8(der) if der == [1]));
}

#[test]
fn server_names() {
    assert_eq!(server_name("example.com").unwrap().to_str(), "example.com");
    assert_eq!(server_name("127.0.0.1").unwrap().to_str(), "127.0.0.1");
    assert!(server_name("").is_err());
    assert!(server_name("a b").is_err());
    assert!(server_name("[::1]").is_err());
}

#[test]
fn client_settings_can_be_built() {
    let config = build_client_config();
    assert!(config.alpn_protocols.is_empty());
}

#[test]
fn every_kind_of_key_text_is_found() {
    let (mut ca, _) = generate();
    let (cert_pem, _) = ca.leaf_for("example.com").unwrap();
    for label in ["RSA PRIVATE KEY", "EC PRIVATE KEY", "PRIVATE KEY"] {
        let key_pem = format!("-----BEGIN {label}-----\nAAAA\n-----END {label}-----\n");
        assert!(matches!(
            build_server_config(&cert_pem, &key_pem),
            Err(ServerConfigError::Rejected(_))
        ));
    }
}

fn pem(der: &[u8]) -> String {
    let alphabet = b"ABCDEFGHIJKLMNOPQRSTUVWXYZabcdefghijklmnopqrstuvwxyz0123456789+/";
    let mut text = String::new();
    for group in der.chunks(3) {
        let bits = group.iter().enumerate().fold(0u32, |bits, (i, byte)| {
            bits | u32::from(*byte) << (16 - 8 * i)
        });
        for i in 0..4 {
            if i <= group.len() {
                text.push(alphabet[(bits >> (18 - 6 * i) & 63) as usize] as char);
            } else {
                text.push('=');
            }
        }
    }
    let lines: Vec<String> =
        text.as_bytes().chunks(64).map(|line| String::from_utf8_lossy(line).into_owned()).collect();
    format!("-----BEGIN CERTIFICATE-----\n{}\n-----END CERTIFICATE-----\n", lines.join("\n"))
}

fn replace(der: &mut Vec<u8>, old: &[u8], new: &[u8]) {
    let mut i = 0;
    let mut found = false;
    while i + old.len() <= der.len() {
        if &der[i..i + old.len()] == old {
            der.splice(i..i + old.len(), new.iter().copied());
            found = true;
            i += new.len();
        } else {
            i += 1;
        }
    }
    assert!(found);
}

fn printable(value: &str) -> DnValue {
    DnValue::PrintableString(PrintableString::try_from(value).unwrap())
}

fn foreign() -> CertificateParams {
    let mut params = CertificateParams::new(vec!["ca.example".to_string()]).unwrap();
    params.is_ca = IsCa::Ca(BasicConstraints::Unconstrained);
    params.distinguished_name = DistinguishedName::new();
    params.distinguished_name.push(DnType::CommonName, printable("whatX"));
    params.distinguished_name.push(DnType::CustomDnType(vec![2, 5, 4, 77]), "custom");
    let upn = vec![1, 3, 6, 1, 4, 1, 311, 20, 2, 3];
    let value = OtherNameValue::Utf8String("user".to_string());
    params.subject_alt_names.push(SanType::OtherName((upn, value)));
    params.name_constraints = Some(NameConstraints {
        permitted_subtrees: vec![GeneralSubtree::DnsName("exampleXY".to_string())],
        excluded_subtrees: vec![GeneralSubtree::DirectoryName(DistinguishedName::new())],
    });
    params.not_before = date_time_ymd(1950, 1, 1);
    params
}

fn load_patched(old: &[u8], new: &[u8]) -> Result<Ca, CaError> {
    let key = KeyPair::generate().unwrap();
    let cert = foreign().self_signed(&key).unwrap();
    let mut der = cert.der().to_vec();
    replace(&mut der, old, new);
    Ca::from_pem(&pem(&der), &key.serialize_pem())
}

#[test]
fn foreign_authority_is_loaded() {
    let mut ca = load_patched(b"whatX", b"whatY").unwrap();
    assert!(ca.leaf_for("example.com").is_ok());
}

#[test]
fn question_mark_in_a_printable_name_is_refused() {
    assert!(matches!(load_patched(b"whatX", b"what?"), Err(CaError::Unwritable)));
}

#[test]
fn identifier_without_a_written_form_is_refused() {
    let refused = load_patched(&[0x06, 0x03, 0x55, 0x04, 0x4d], &[0x06, 0x03, 0x88, 0x37, 0x01]);
    assert!(matches!(refused, Err(CaError::Unwritable)));
    let upn = [0x2b, 0x06, 0x01, 0x04, 0x01];
    let refused = load_patched(&upn, &[0x78, 0x06, 0x01, 0x04, 0x01]);
    assert!(matches!(refused, Err(CaError::Unwritable)));
}

#[test]
fn constraint_outside_ascii_is_refused() {
    let refused = load_patched(b"exampleXY", "example\u{e9}".as_bytes());
    assert!(matches!(refused, Err(CaError::Unwritable)));
}

#[test]
fn date_that_leaves_its_form_is_refused() {
    let key = KeyPair::generate().unwrap();
    let cert = foreign().self_signed(&key).unwrap();
    let mut der = cert.der().to_vec();
    replace(&mut der, b"\x17\x0d500101000000Z", b"\x17\x11500101000000+0100");
    replace(&mut der, b"\x30\x20\x17\x11", b"\x30\x24\x17\x11");
    for at in [2, 6] {
        assert_eq!(der[at - 1], 0x82);
        let length = u16::from_be_bytes([der[at], der[at + 1]]) + 4;
        der[at..at + 2].copy_from_slice(&length.to_be_bytes());
    }
    let refused = Ca::from_pem(&pem(&der), &key.serialize_pem());
    assert!(matches!(refused, Err(CaError::Unwritable)));
}

#[test]
fn contents_are_handed_out() {
    let contents = contents(&foreign());
    assert_eq!(contents.names.alternative.len(), 2);
    assert_eq!(contents.names.alternative[0], None);
    assert_eq!(contents.names.alternative[1], Some(vec![1, 3, 6, 1, 4, 1, 311, 20, 2, 3]));
    assert!(matches!(
        contents.names.constraints.as_slice(),
        [Constraint::Text(text), Constraint::Directory(_)] if text == "exampleXY"
    ));
    assert_eq!(contents.not_before, Moment { year: 1950, timestamp: -631152000 });
    assert_eq!(contents.not_after, Moment { year: 4096, timestamp: 67090118400 });
    assert!(check_contents(&contents));
}

fn with_identifier(identifier: Vec<u64>) -> Contents {
    let names = Names {
        subject: DistinguishedName::new(),
        alternative: vec![None, Some(identifier)],
        constraints: vec![Constraint::Address],
    };
    let moment = Moment { year: 2000, timestamp: 946684800 };
    Contents { names, not_before: moment, not_after: moment }
}

#[test]
fn identifiers_have_limits() {
    assert!(check_contents(&with_identifier(vec![2, 999])));
    assert!(check_contents(&with_identifier(vec![1, 39, u64::MAX])));
    assert!(check_contents(&with_identifier(vec![2, 18446744073709551534])));
    assert!(!check_contents(&with_identifier(vec![2, 18446744073709551535])));
    assert!(!check_contents(&with_identifier(vec![1, 40])));
    assert!(!check_contents(&with_identifier(vec![3, 1])));
    assert!(!check_contents(&with_identifier(vec![2])));
    assert!(!check_contents(&with_identifier(vec![])));
}

#[test]
fn directory_constraints_are_looked_into() {
    let mut name = DistinguishedName::new();
    name.push(DnType::CommonName, printable("fine"));
    let mut contents = with_identifier(vec![1, 2]);
    contents.names.constraints.push(Constraint::Directory(name.clone()));
    assert!(check_contents(&contents));
    name.push(DnType::OrganizationName, printable("why?"));
    contents.names.constraints.push(Constraint::Directory(name));
    assert!(!check_contents(&contents));
}

#[test]
fn dates_have_limits() {
    let moment = |year, timestamp| check_moment(Moment { year, timestamp });
    assert!(moment(1950, -631152000));
    assert!(!moment(1950, -631152001));
    assert!(moment(2049, 2524607999));
    assert!(!moment(2049, 2524608000));
    assert!(moment(2050, 2524607999));
    assert!(moment(9999, 253402300799));
    assert!(!moment(9999, 253402300800));
    assert!(moment(0, -62167219200));
    assert!(!moment(0, -62167219201));
}

#[test]
fn stored_key_is_written_as_it_was_read() {
    let (_, key_pem) = generate();
    assert_eq!(KeyPair::from_pem(&key_pem).unwrap().serialize_pem(), key_pem);
    let respaced = key_pem.replace('\n', "\r\n");
    assert_eq!(KeyPair::from_pem(&respaced).unwrap().serialize_pem(), key_pem);
}
