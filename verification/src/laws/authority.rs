//! Laws of the authority and of the certificates that it issues.

use crate::proxy::ca::{
    authority, authority_profile, generate_result, is_key_read, is_loadable, leaf_profile,
    load_result, made, params_result, remade, sign_result, Attribute, Ca, CaError, KeyUsage,
    Profile, ProfileSpec, Role,
};
use crate::proxy::leaf_cache::LeafCache;
use crate::proxy::stored::{
    alternative_is_writable, check_contents, check_moment, components, constraint_is_writable,
    entry_is_writable, is_read_from, name_contents, name_is_writable, pem_contents, Constraint,
    Contents, Moment, NameEntrySpec,
};
use crate::proxy::tls::{server_identity, PrivateKey, ServerConfigError};
use vstd::prelude::*;
use vstd::utf8::is_ascii_chars;

verus! {

/// The certificate for a host has exactly one alternative name, and that is the very
/// text of the host; so is its common name, the only attribute of its subject. Its key
/// signs nothing.
pub proof fn law_leaf_profile(host: &str, r: Profile)
    requires
        call_ensures(leaf_profile, (host,), r),
    ensures
        r.names@.len() == 1,
        r.names@[0]@ == host@,
        r.subject@.len() == 1,
        r.subject@[0].0 == Attribute::CommonName,
        r.subject@[0].1@ == host@,
        r.role == Role::EndEntity,
        r.usages@.len() == 0,
{
    assert(r@.names.len() == r.names@.len());
    assert(r@.subject.len() == r.subject@.len());
    assert(r@.names[0] == r.names@[0]@);
    assert(r@.subject[0] == (r.subject@[0].0, r.subject@[0].1@));
}

/// Certificates for different hosts have no name in common.
pub proof fn law_leaf_profiles_differ(host: &str, other: &str, r: Profile, other_r: Profile)
    requires
        call_ensures(leaf_profile, (host,), r),
        call_ensures(leaf_profile, (other,), other_r),
        host@ != other@,
    ensures
        forall|i: int, j: int|
            0 <= i < r.names@.len() && 0 <= j < other_r.names@.len() ==> #[trigger] r.names@[i]@
                != #[trigger] other_r.names@[j]@,
{
    law_leaf_profile(host, r);
    law_leaf_profile(other, other_r);
}

/// The certificate of the authority names no host. It has a fixed subject and may sign
/// certificates and revocation lists.
pub proof fn law_authority_profile(r: Profile)
    requires
        call_ensures(authority_profile, (), r),
    ensures
        r.names@.len() == 0,
        r.subject@.len() == 2,
        r.subject@[0].0 == Attribute::CommonName,
        r.subject@[0].1@ == "gost-upstream local CA (dev, do not trust globally)"@,
        r.subject@[1].0 == Attribute::OrganizationName,
        r.subject@[1].1@ == "gost-upstream"@,
        r.role == Role::Authority,
        r.usages@ == seq![KeyUsage::KeyCertSign, KeyUsage::CrlSign],
{
    assert(r@.names.len() == r.names@.len());
    assert(r@.subject.len() == r.subject@.len());
    assert(r@.subject[0] == (r.subject@[0].0, r.subject@[0].1@));
    assert(r@.subject[1] == (r.subject@[1].0, r.subject@[1].1@));
}

/// What a certificate for one host says.
pub open spec fn for_host(host: Seq<char>) -> ProfileSpec {
    ProfileSpec {
        names: seq![host],
        subject: seq![(Attribute::CommonName, host)],
        role: Role::EndEntity,
        usages: Seq::empty(),
    }
}

/// What the certificate of an authority says.
pub open spec fn for_authority() -> ProfileSpec {
    ProfileSpec {
        names: Seq::empty(),
        subject: seq![
            (
                Attribute::CommonName,
                "gost-upstream local CA (dev, do not trust globally)"@,
            ),
            (Attribute::OrganizationName, "gost-upstream"@),
        ],
        role: Role::Authority,
        usages: seq![KeyUsage::KeyCertSign, KeyUsage::CrlSign],
    }
}

/// The certificate of a host that was not asked for before is made for exactly that
/// host and a fresh key, and the authority signs it with its own key and in its own
/// name. It is refused if the name of the host is not ASCII, and only then; otherwise
/// only making the key or signing may fail.
pub proof fn law_leaf_is_issued(ca: &mut Ca, host: &str, r: Result<(String, String), CaError>)
    requires
        call_ensures(Ca::leaf_for, (ca, host), r),
        !old(ca).leaves().dom().contains(host@),
    ensures
        r matches Ok((cert_pem, key_pem)) ==> exists|
            key: rcgen::KeyPair,
            params: rcgen::CertificateParams,
            cert: rcgen::Certificate,
        | {
            &&& call_ensures(rcgen::KeyPair::generate, (), Ok(key))
            &&& params_result(for_host(host@), Ok(params))
            &&& #[trigger] sign_result(
                params,
                key,
                old(ca).certificate(),
                old(ca).key(),
                Ok(cert),
            )
            &&& call_ensures(rcgen::Certificate::pem, (&cert,), cert_pem)
            &&& call_ensures(rcgen::KeyPair::serialize_pem, (&key,), key_pem)
        },
        r matches Err(error) ==> match error {
            CaError::Certificate(refusal) => !is_ascii_chars(host@) && params_result(
                for_host(host@),
                Err(refusal),
            ),
            CaError::Key(failure) => is_ascii_chars(host@) && call_ensures(
                rcgen::KeyPair::generate,
                (),
                Err(failure),
            ),
            CaError::Signature(failure) => is_ascii_chars(host@) && exists|
                key: rcgen::KeyPair,
                params: rcgen::CertificateParams,
                signed: Result<rcgen::Certificate, rcgen::Error>,
            | {
                &&& call_ensures(rcgen::KeyPair::generate, (), Ok(key))
                &&& params_result(for_host(host@), Ok(params))
                &&& #[trigger] sign_result(
                    params,
                    key,
                    old(ca).certificate(),
                    old(ca).key(),
                    signed,
                )
                &&& signed == Err::<rcgen::Certificate, _>(failure)
            },
            CaError::Unwritable => false,
        },
        !is_ascii_chars(host@) ==> r is Err,
{
}

/// Whether two answers are the same two texts.
pub open spec fn same_texts(a: (String, String), b: (String, String)) -> bool {
    a.0@ == b.0@ && a.1@ == b.1@
}

/// A certificate that was given out for a host is given out for that host again, also
/// after another one was asked for in between.
pub proof fn law_leaf_stays(
    first: &mut Ca,
    host: &str,
    given: (String, String),
    second: &mut Ca,
    other: &str,
    between: Result<(String, String), CaError>,
    third: &mut Ca,
    same_host: &str,
    again: Result<(String, String), CaError>,
)
    requires
        call_ensures(Ca::leaf_for, (first, host), Ok::<(String, String), CaError>(given)),
        *old(second) == *final(first),
        call_ensures(Ca::leaf_for, (second, other), between),
        *old(third) == *final(second),
        same_host@ == host@,
        call_ensures(Ca::leaf_for, (third, same_host), again),
    ensures
        again matches Ok(pair) && same_texts(pair, given),
        other@ == host@ ==> (between matches Ok(pair) && same_texts(pair, given)),
{
}

/// Only a host that was asked for, with success, has a certificate that is remembered,
/// and giving out certificates changes neither the key nor the certificate of the
/// authority.
pub proof fn law_what_a_leaf_changes(
    ca: &mut Ca,
    host: &str,
    r: Result<(String, String), CaError>,
    text: &str,
    text_after: &str,
    asked: Seq<char>,
)
    requires
        call_ensures(Ca::cert_pem, (&*old(ca),), text),
        call_ensures(Ca::leaf_for, (ca, host), r),
        call_ensures(Ca::cert_pem, (&*final(ca),), text_after),
    ensures
        text_after@ == text@,
        final(ca).key() == old(ca).key(),
        final(ca).certificate() == old(ca).certificate(),
        final(ca).leaves().dom().contains(asked) <==> old(ca).leaves().dom().contains(asked) || (
        asked == host@ && r is Ok),
{
}

/// Whether an authority is a new one with this text of its certificate and of its key:
/// it has a fresh key, with which it signs its own certificate; that certificate says
/// what an authority's does, and no host has one yet.
pub open spec fn is_new(ca: Ca, text: Seq<char>, key_pem: String) -> bool {
    &&& call_ensures(rcgen::KeyPair::generate, (), Ok(ca.key()))
    &&& exists|params: rcgen::CertificateParams|
        params_result(for_authority(), Ok(params)) && #[trigger] call_ensures(
            rcgen::CertificateParams::self_signed,
            (params, &ca.key()),
            Ok(ca.certificate()),
        )
    &&& exists|written: String|
        written@ == text && #[trigger] call_ensures(
            rcgen::Certificate::pem,
            (&ca.certificate(),),
            written,
        )
    &&& call_ensures(rcgen::KeyPair::serialize_pem, (&ca.key(),), key_pem)
    &&& forall|host: Seq<char>| !#[trigger] ca.leaves().dom().contains(host)
}

/// Whether making a new authority may fail in this way: only making the key and signing
/// can fail.
pub open spec fn may_not_be_made(error: CaError) -> bool {
    match error {
        CaError::Key(failure) => call_ensures(rcgen::KeyPair::generate, (), Err(failure)),
        CaError::Signature(failure) => exists|
            key: rcgen::KeyPair,
            params: rcgen::CertificateParams,
            signed: Result<rcgen::Certificate, rcgen::Error>,
        | {
            &&& call_ensures(rcgen::KeyPair::generate, (), Ok(key))
            &&& params_result(for_authority(), Ok(params))
            &&& #[trigger] call_ensures(
                rcgen::CertificateParams::self_signed,
                (params, &key),
                signed,
            )
            &&& signed == Err::<rcgen::Certificate, _>(failure)
        },
        _ => false,
    }
}

/// Whether an authority is the one of two texts: it signs with the key of the one, and
/// the other is what clients are asked to trust. Its certificate is made anew from that
/// text, with that key, and no host has one yet.
pub open spec fn is_loaded(ca: Ca, text: Seq<char>, cert_pem: &str, key_pem: &str) -> bool {
    &&& text == cert_pem@
    &&& call_ensures(
        rcgen::KeyPair::from_pem,
        (key_pem,),
        Ok::<rcgen::KeyPair, rcgen::Error>(ca.key()),
    )
    &&& exists|params: rcgen::CertificateParams|
        call_ensures(
            rcgen::CertificateParams::from_ca_cert_pem,
            (cert_pem,),
            Ok::<rcgen::CertificateParams, rcgen::Error>(params),
        ) && #[trigger] call_ensures(
            rcgen::CertificateParams::self_signed,
            (params, &ca.key()),
            Ok(ca.certificate()),
        )
    &&& forall|host: Seq<char>| !#[trigger] ca.leaves().dom().contains(host)
}

/// Whether a key may be read from a text.
pub open spec fn is_key_of(key: rcgen::KeyPair, key_pem: &str) -> bool {
    call_ensures(
        rcgen::KeyPair::from_pem,
        (key_pem,),
        Ok::<rcgen::KeyPair, rcgen::Error>(key),
    )
}

/// Whether loading an authority from two texts may fail in this way, where
/// `can_be_written` says whether all contents of the certificate can be. The key is read
/// first, then the certificate, and nothing is signed that cannot be written.
pub open spec fn may_not_be_loaded(
    error: CaError,
    cert_pem: &str,
    key_pem: &str,
    can_be_written: bool,
) -> bool {
    match error {
        CaError::Key(failure) => call_ensures(rcgen::KeyPair::from_pem, (key_pem,), Err(failure)),
        CaError::Certificate(failure) => {
            &&& exists|key: rcgen::KeyPair| is_key_of(key, key_pem)
            &&& pem_contents(cert_pem@) is None
            &&& call_ensures(
                rcgen::CertificateParams::from_ca_cert_pem,
                (cert_pem,),
                Err(failure),
            )
        },
        CaError::Unwritable => {
            &&& exists|key: rcgen::KeyPair| is_key_of(key, key_pem)
            &&& pem_contents(cert_pem@) is Some
            &&& !can_be_written
        },
        CaError::Signature(failure) => {
            &&& pem_contents(cert_pem@) is Some
            &&& can_be_written
            &&& exists|
                key: rcgen::KeyPair,
                params: rcgen::CertificateParams,
                signed: Result<rcgen::Certificate, rcgen::Error>,
            | {
                &&& is_key_of(key, key_pem)
                &&& call_ensures(
                    rcgen::CertificateParams::from_ca_cert_pem,
                    (cert_pem,),
                    Ok::<rcgen::CertificateParams, rcgen::Error>(params),
                )
                &&& #[trigger] call_ensures(
                    rcgen::CertificateParams::self_signed,
                    (params, &key),
                    signed,
                )
                &&& signed == Err::<rcgen::Certificate, _>(failure)
            }
        },
    }
}

/// What may have gone wrong with a new authority.
proof fn lemma_not_made(error: CaError)
    requires
        generate_result(Err(error)),
    ensures
        may_not_be_made(error),
{
    assert(authority() =~~= for_authority());
    if let CaError::Signature(failure) = error {
        let (key, signed) = choose|
            key: rcgen::KeyPair,
            signed: Result<rcgen::Certificate, rcgen::Error>,
        | #[trigger]
            made(authority(), key, signed) && signed == Err::<rcgen::Certificate, _>(failure);
        let params = choose|params: rcgen::CertificateParams|
            params_result(authority(), Ok(params)) && #[trigger] call_ensures(
                rcgen::CertificateParams::self_signed,
                (params, &key),
                signed,
            );
        assert(call_ensures(rcgen::CertificateParams::self_signed, (params, &key), signed));
    }
}

/// What may have gone wrong with a stored authority.
proof fn lemma_not_loaded(
    error: CaError,
    cert_pem: &str,
    key_pem: &str,
    can_be_written: bool,
)
    requires
        load_result(cert_pem, key_pem, Err(error)),
        pem_contents(cert_pem@) is Some ==> can_be_written == is_loadable(cert_pem@),
    ensures
        may_not_be_loaded(error, cert_pem, key_pem, can_be_written),
{
    if error is Certificate || error is Unwritable {
        let key = choose|key: rcgen::KeyPair| is_key_read(key_pem, key);
        assert(is_key_of(key, key_pem));
    }
    if let CaError::Signature(failure) = error {
        let (key, signed) = choose|
            key: rcgen::KeyPair,
            signed: Result<rcgen::Certificate, rcgen::Error>,
        | {
            &&& is_key_read(key_pem, key)
            &&& is_loadable(cert_pem@)
            &&& #[trigger] remade(cert_pem, key, signed)
            &&& signed == Err::<rcgen::Certificate, _>(failure)
        };
        assert(is_key_of(key, key_pem));
        let params = choose|params: rcgen::CertificateParams|
            is_read_from(params, cert_pem) && #[trigger] call_ensures(
                rcgen::CertificateParams::self_signed,
                (params, &key),
                signed,
            );
        assert(call_ensures(rcgen::CertificateParams::self_signed, (params, &key), signed));
    }
}

/// A new authority has a fresh key, with which it signs its own certificate; that
/// certificate says what an authority's does, and its text and that of the key are
/// given out. Nothing but making the key and signing can fail.
pub proof fn law_new_authority(
    r: Result<(Ca, String), CaError>,
    ca: Ca,
    key_pem: String,
    text: &str,
)
    requires
        call_ensures(Ca::generate, (), r),
        r matches Ok(pair) ==> pair == (ca, key_pem),
        call_ensures(Ca::cert_pem, (&ca,), text),
    ensures
        r is Ok ==> is_new(ca, text@, key_pem),
        r matches Err(error) ==> may_not_be_made(error),
{
    assert(authority() =~~= for_authority());
    if let Err(error) = r {
        lemma_not_made(error);
    }
}

/// An authority that is loaded signs with the key of the one text, and the other text is
/// what clients are asked to trust. Nothing is loaded where the text of the certificate
/// cannot be read or holds what cannot be written.
pub proof fn law_loaded_authority(
    cert_pem: &str,
    key_pem: &str,
    r: Result<Ca, CaError>,
    ca: Ca,
    text: &str,
    read: &Contents,
    can_be_written: bool,
)
    requires
        call_ensures(Ca::from_pem, (cert_pem, key_pem), r),
        r matches Ok(loaded) ==> loaded == ca,
        call_ensures(Ca::cert_pem, (&ca,), text),
        call_ensures(check_contents, (read,), can_be_written),
        pem_contents(cert_pem@) matches Some(found) ==> found == read@,
    ensures
        r is Ok ==> is_loaded(ca, text@, cert_pem, key_pem) && pem_contents(cert_pem@) is Some
            && can_be_written,
        r matches Err(error) ==> may_not_be_loaded(error, cert_pem, key_pem, can_be_written),
{
    if let Err(error) = r {
        lemma_not_loaded(error, cert_pem, key_pem, can_be_written);
    }
}

/// What is stored is loaded, and no new key comes with it; only where nothing is stored
/// a new authority is made, and the text of its key comes with it. If what is stored
/// cannot be loaded, nothing is made in its place.
pub proof fn law_load_or_generate(
    stored: Option<(&str, &str)>,
    r: Result<(Ca, Option<String>), CaError>,
    ca: Ca,
    new_key: Option<String>,
    text: &str,
    read: &Contents,
    can_be_written: bool,
)
    requires
        call_ensures(Ca::load_or_generate, (stored,), r),
        r matches Ok(pair) ==> pair == (ca, new_key),
        call_ensures(Ca::cert_pem, (&ca,), text),
        call_ensures(check_contents, (read,), can_be_written),
        stored matches Some((cert_pem, _)) ==> (pem_contents(cert_pem@) matches Some(found)
            ==> found == read@),
    ensures
        stored matches Some((cert_pem, key_pem)) ==> match r {
            Ok(_) => new_key is None && is_loaded(ca, text@, cert_pem, key_pem) && pem_contents(
                cert_pem@,
            ) is Some && can_be_written,
            Err(error) => may_not_be_loaded(error, cert_pem, key_pem, can_be_written),
        },
        stored is None ==> match r {
            Ok(_) => new_key matches Some(key_pem) && is_new(ca, text@, key_pem),
            Err(error) => may_not_be_made(error),
        },
{
    assert(authority() =~~= for_authority());
    match (stored, r) {
        (Some((cert_pem, key_pem)), Err(error)) => {
            lemma_not_loaded(error, cert_pem, key_pem, can_be_written);
        },
        (None, Err(error)) => {
            lemma_not_made(error);
        },
        _ => {},
    }
}

/// A cache of certificates starts empty. What is kept for a host is handed on, and found
/// again if it is a certificate; a failure, and what is kept for other hosts, changes
/// nothing.
pub proof fn law_leaf_cache(
    begun: LeafCache,
    cache: &mut LeafCache,
    host: &str,
    issued: Result<(String, String), CaError>,
    r: Result<(String, String), CaError>,
    asked: &str,
    at_first: Option<(String, String)>,
    before: Option<(String, String)>,
    after: Option<(String, String)>,
)
    requires
        call_ensures(LeafCache::new, (), begun),
        call_ensures(LeafCache::get, (&begun, asked), at_first),
        call_ensures(LeafCache::get, (&*old(cache), asked), before),
        call_ensures(LeafCache::keep, (cache, host, issued), r),
        call_ensures(LeafCache::get, (&*final(cache), asked), after),
    ensures
        at_first is None,
        r == issued,
        asked@ == host@ && issued is Ok ==> (after matches Some(pair) && same_texts(
            pair,
            issued->Ok_0,
        )),
        asked@ != host@ || issued is Err ==> match (before, after) {
            (Some(old_pair), Some(new_pair)) => same_texts(new_pair, old_pair),
            (None, None) => true,
            _ => false,
        },
{
}

/// A moment can be written if it lies, in UTC, in a year from 1950 to 2049 where its own
/// year is one of these, and in a year from 0 to 9999 otherwise. Years are counted here
/// by the days from their start to that of 1970.
pub proof fn law_check_moment(moment: Moment, r: bool)
    requires
        call_ensures(check_moment, (moment,), r),
    ensures
        1950 <= moment.year <= 2049 ==> r == (-7305 * 86400 <= moment.timestamp < 29220 * 86400),
        moment.year < 1950 || 2049 < moment.year ==> r == (-719528 * 86400 <= moment.timestamp
            < 2932897 * 86400),
{
}

/// Whether an object identifier can be written: its first two components are joined to
/// forty times the one plus the other, and that has to fit.
pub open spec fn can_be_joined(identifier: Seq<u64>) -> bool {
    &&& identifier.len() >= 2
    &&& (identifier[0] <= 1 && identifier[1] <= 39) || identifier[0] == 2
    &&& 40 * identifier[0] + identifier[1] < u64::MAX
}

/// Whether the attributes of a name can be written.
pub open spec fn is_plain_name(entries: Seq<NameEntrySpec>) -> bool {
    forall|i: int|
        0 <= i < entries.len() ==> {
            &&& (#[trigger] entries[i]).identifier matches Some(identifier) ==> can_be_joined(
                identifier,
            )
            &&& entries[i].printable matches Some(text) ==> forall|k: int|
                0 <= k < text.len() ==> #[trigger] text[k] != '?'
        }
}

/// Whether a constraint can be written.
pub open spec fn is_plain_constraint(constraint: Constraint) -> bool {
    match constraint {
        Constraint::Text(text) => forall|k: int|
            0 <= k < text@.len() ==> '\0' <= #[trigger] text@[k] <= '\u{7f}',
        Constraint::Directory(name) => is_plain_name(name_contents(name)),
        Constraint::Address => true,
    }
}

/// A certificate can be written anew exactly if its subject, each alternative name, each
/// constraint and both ends of its validity can.
pub proof fn law_check_contents(contents: &Contents, r: bool, from: bool, to: bool)
    requires
        call_ensures(check_contents, (contents,), r),
        call_ensures(check_moment, (contents.not_before,), from),
        call_ensures(check_moment, (contents.not_after,), to),
    ensures
        r <==> {
            &&& is_plain_name(name_contents(contents.names.subject))
            &&& forall|i: int|
                0 <= i < contents.names.alternative@.len() ==> (
                #[trigger] contents.names.alternative@[i] matches Some(identifier)
                    ==> can_be_joined(identifier@))
            &&& forall|i: int|
                0 <= i < contents.names.constraints@.len() ==> is_plain_constraint(
                    #[trigger] contents.names.constraints@[i],
                )
            &&& from
            &&& to
        },
{
    let names = contents.names;
    lemma_plain_name(name_contents(names.subject));
    let all_alternative = forall|i: int|
        0 <= i < names.alternative@.len() ==> (#[trigger] names.alternative@[i] matches Some(
            identifier,
        ) ==> can_be_joined(identifier@));
    let all_constraints = forall|i: int|
        0 <= i < names.constraints@.len() ==> is_plain_constraint(
            #[trigger] names.constraints@[i],
        );
    assert(names@.alternative.len() == names.alternative@.len());
    assert(names@.constraints.len() == names.constraints@.len());
    if all_alternative {
        assert forall|i: int| 0 <= i < names@.alternative.len() implies alternative_is_writable(
            #[trigger] names@.alternative[i],
        ) by {
            assert(names@.alternative[i] == components(names.alternative@[i]));
        }
    }
    if all_constraints {
        assert forall|i: int| 0 <= i < names@.constraints.len() implies constraint_is_writable(
            #[trigger] names@.constraints[i],
        ) by {
            assert(names@.constraints[i] == names.constraints@[i]@);
            lemma_plain_constraint(names.constraints@[i]);
        }
    }
    if r {
        assert forall|i: int| 0 <= i < names.alternative@.len() implies (
        #[trigger] names.alternative@[i] matches Some(identifier) ==> can_be_joined(
            identifier@,
        )) by {
            assert(names@.alternative[i] == components(names.alternative@[i]));
        }
        assert forall|i: int| 0 <= i < names.constraints@.len() implies is_plain_constraint(
            #[trigger] names.constraints@[i],
        ) by {
            assert(names@.constraints[i] == names.constraints@[i]@);
            lemma_plain_constraint(names.constraints@[i]);
        }
    }
}

/// Both ways to say which names can be written agree.
proof fn lemma_plain_name(entries: Seq<NameEntrySpec>)
    ensures
        is_plain_name(entries) == name_is_writable(entries),
{
    if name_is_writable(entries) {
        assert forall|i: int| 0 <= i < entries.len() implies {
            &&& (#[trigger] entries[i]).identifier matches Some(identifier) ==> can_be_joined(
                identifier,
            )
            &&& entries[i].printable matches Some(text) ==> forall|k: int|
                0 <= k < text.len() ==> #[trigger] text[k] != '?'
        } by {
            assert(entry_is_writable(entries[i]));
        }
    }
    if is_plain_name(entries) {
        assert forall|i: int| 0 <= i < entries.len() implies entry_is_writable(
            #[trigger] entries[i],
        ) by {}
    }
}

/// Both ways to say which constraints can be written agree.
proof fn lemma_plain_constraint(constraint: Constraint)
    ensures
        is_plain_constraint(constraint) == constraint_is_writable(constraint@),
{
    match constraint {
        Constraint::Text(_) => {},
        Constraint::Directory(name) => {
            lemma_plain_name(name_contents(name));
        },
        Constraint::Address => {},
    }
}

/// A server needs a chain and a key, and gets those that were read. A chain that could
/// not be read is reported before a key that could not be read or was not there.
pub proof fn law_server_identity(
    certificates: Result<Vec<Vec<u8>>, std::io::Error>,
    key: Result<Option<PrivateKey>, std::io::Error>,
    r: Result<(Vec<Vec<u8>>, PrivateKey), ServerConfigError>,
)
    requires
        call_ensures(server_identity, (certificates, key), r),
    ensures
        certificates matches Err(error) ==> r == Err::<(Vec<Vec<u8>>, PrivateKey), _>(
            ServerConfigError::Certificates(error),
        ),
        certificates is Ok ==> (key matches Err(error) ==> r == Err::<
            (Vec<Vec<u8>>, PrivateKey),
            _,
        >(ServerConfigError::PrivateKey(error))),
        certificates is Ok && (key matches Ok(None)) ==> r == Err::<(Vec<Vec<u8>>, PrivateKey), _>(
            ServerConfigError::NoPrivateKey,
        ),
        certificates matches Ok(chain) ==> (key matches Ok(Some(found)) ==> r == Ok::<
            _,
            ServerConfigError,
        >((chain, found))),
{
}

} // verus!
