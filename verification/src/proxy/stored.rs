//! What the stored certificate of an authority holds, as far as it decides
//! whether the certificate can be written anew.

use crate::text::chars_of;
use rcgen::{DnType, DnValue, GeneralSubtree, SanType};
use vstd::prelude::*;
use vstd::utf8::is_ascii_chars;

verus! {

/// The parameters of a certificate, of the `rcgen` crate.
#[verifier::external_type_specification]
#[verifier::external_body]
pub struct ExCertificateParams(rcgen::CertificateParams);

/// The name of a subject, of the `rcgen` crate: a list of attributes.
#[verifier::external_type_specification]
#[verifier::external_body]
pub struct ExDistinguishedName(rcgen::DistinguishedName);

/// An error of the `rcgen` crate.
#[verifier::external_type_specification]
#[verifier::external_body]
pub struct ExRcgenError(rcgen::Error);

/// One attribute of a name.
#[derive(Debug)]
pub struct NameEntry {
    /// The object identifier of the attribute, if it is not one of the common
    /// ones.
    pub identifier: Option<Vec<u64>>,
    /// The value, if it is a `PrintableString`.
    pub printable: Option<String>,
}

/// The contents of a `NameEntry`.
#[verifier::ext_equal]
pub struct NameEntrySpec {
    pub identifier: Option<Seq<u64>>,
    pub printable: Option<Seq<char>>,
}

/// The components of an object identifier that may be there.
pub open spec fn components(identifier: Option<Vec<u64>>) -> Option<Seq<u64>> {
    match identifier {
        Some(identifier) => Some(identifier@),
        None => None,
    }
}

impl View for NameEntry {
    type V = NameEntrySpec;

    open spec fn view(&self) -> NameEntrySpec {
        NameEntrySpec {
            identifier: components(self.identifier),
            printable: match self.printable {
                Some(text) => Some(text@),
                None => None,
            },
        }
    }
}

/// The attributes that a distinguished name holds, in order.
pub uninterp spec fn name_contents(name: rcgen::DistinguishedName) -> Seq<NameEntrySpec>;

/// The attributes of a name, in the order in which
/// `rcgen::DistinguishedName::iter` walks them.
#[verifier::external_body]
fn name_entries(name: &rcgen::DistinguishedName) -> (r: Vec<NameEntry>)
    ensures
        r@.map_values(|entry: NameEntry| entry@) == name_contents(*name),
{
    let entries = name.iter().map(|(kind, value)| NameEntry {
        identifier: match kind {
            DnType::CustomDnType(identifier) => Some(identifier.clone()),
            _ => None,
        },
        printable: match value {
            DnValue::PrintableString(text) => Some(text.as_str().to_string()),
            _ => None,
        },
    });
    entries.collect()
}

/// A subtree of names that an authority is confined to, or kept out of.
pub enum Constraint {
    /// A mail or DNS name.
    Text(String),
    Directory(rcgen::DistinguishedName),
    Address,
}

/// The contents of a `Constraint`.
pub enum ConstraintSpec {
    Text(Seq<char>),
    Directory(Seq<NameEntrySpec>),
    Address,
}

impl View for Constraint {
    type V = ConstraintSpec;

    open spec fn view(&self) -> ConstraintSpec {
        match *self {
            Constraint::Text(text) => ConstraintSpec::Text(text@),
            Constraint::Directory(name) => ConstraintSpec::Directory(name_contents(name)),
            Constraint::Address => ConstraintSpec::Address,
        }
    }
}

/// A point in time: the year that it falls into at its own offset, and the
/// seconds since the start of 1970 in UTC.
#[derive(Debug, Clone, Copy, PartialEq, Eq)]
pub struct Moment {
    pub year: i32,
    pub timestamp: i64,
}

/// The names in a certificate.
pub struct Names {
    pub subject: rcgen::DistinguishedName,
    /// For each alternative name its object identifier, if it has one.
    pub alternative: Vec<Option<Vec<u64>>>,
    pub constraints: Vec<Constraint>,
}

/// The contents of `Names`.
#[verifier::ext_equal]
pub struct NamesSpec {
    pub subject: Seq<NameEntrySpec>,
    pub alternative: Seq<Option<Seq<u64>>>,
    pub constraints: Seq<ConstraintSpec>,
}

impl View for Names {
    type V = NamesSpec;

    open spec fn view(&self) -> NamesSpec {
        NamesSpec {
            subject: name_contents(self.subject),
            alternative: self.alternative@.map_values(
                |identifier: Option<Vec<u64>>| components(identifier),
            ),
            constraints: self.constraints@.map_values(|constraint: Constraint| constraint@),
        }
    }
}

/// What a certificate holds that it may not be possible to write.
pub struct Contents {
    pub names: Names,
    pub not_before: Moment,
    pub not_after: Moment,
}

/// The contents of `Contents`.
pub struct ContentsSpec {
    pub names: NamesSpec,
    pub not_before: Moment,
    pub not_after: Moment,
}

impl View for Contents {
    type V = ContentsSpec;

    open spec fn view(&self) -> ContentsSpec {
        ContentsSpec {
            names: self.names@,
            not_before: self.not_before,
            not_after: self.not_after,
        }
    }
}

/// The contents of the certificate that
/// `rcgen::CertificateParams::from_ca_cert_pem` reads from a text, or `None`
/// where it cannot read one.
pub uninterp spec fn pem_contents(text: Seq<char>) -> Option<ContentsSpec>;

/// `rcgen::CertificateParams::from_ca_cert_pem` reads the parameters of a
/// certificate from PEM text. Whether it can depends on the text alone.
pub assume_specification[ rcgen::CertificateParams::from_ca_cert_pem ](pem_str: &str) -> (r: Result<
    rcgen::CertificateParams,
    rcgen::Error,
>)
    ensures
        r is Ok <==> pem_contents(pem_str@) is Some,
;

/// The names in what was read.
pub open spec fn names_in(read: Option<ContentsSpec>) -> Option<NamesSpec> {
    match read {
        Some(contents) => Some(contents.names),
        None => None,
    }
}

/// The validity in what was read.
pub open spec fn validity_in(read: Option<ContentsSpec>) -> Option<(Moment, Moment)> {
    match read {
        Some(contents) => Some((contents.not_before, contents.not_after)),
        None => None,
    }
}

/// Whether parameters may have been read from this text.
pub open spec fn is_read_from(params: rcgen::CertificateParams, text: &str) -> bool {
    call_ensures(
        rcgen::CertificateParams::from_ca_cert_pem,
        (text,),
        Ok::<rcgen::CertificateParams, rcgen::Error>(params),
    )
}

/// The names in the parameters of a certificate, from the fields of
/// `rcgen::CertificateParams`; the constraints are the permitted subtrees and
/// then the excluded ones. For parameters that were read from a text they are the
/// names in that text.
#[verifier::external_body]
fn names(params: &rcgen::CertificateParams) -> (r: Names)
    ensures
        forall|text: &str| #[trigger]
            is_read_from(*params, text) ==> names_in(pem_contents(text@)) == Some(r@),
{
    let alternative = params.subject_alt_names.iter().map(|name| match name {
        SanType::OtherName((identifier, _)) => Some(identifier.clone()),
        _ => None,
    });
    let lists = params.name_constraints.iter();
    let trees = lists.flat_map(|list| list.permitted_subtrees.iter().chain(&list.excluded_subtrees));
    let constraints = trees.map(|tree| match tree {
        GeneralSubtree::Rfc822Name(text) => Constraint::Text(text.clone()),
        GeneralSubtree::DnsName(text) => Constraint::Text(text.clone()),
        GeneralSubtree::DirectoryName(name) => Constraint::Directory(name.clone()),
        _ => Constraint::Address,
    });
    let (alternative, constraints) = (alternative.collect(), constraints.collect());
    Names { subject: params.distinguished_name.clone(), alternative, constraints }
}

/// The validity in the parameters of a certificate, from the fields `not_before`
/// and `not_after` of `rcgen::CertificateParams`. For parameters that were read
/// from a text it is the validity in that text.
#[verifier::external_body]
fn validity(params: &rcgen::CertificateParams) -> (r: (Moment, Moment))
    ensures
        forall|text: &str| #[trigger]
            is_read_from(*params, text) ==> validity_in(pem_contents(text@)) == Some(r),
{
    let (from, to) = (params.not_before, params.not_after);
    (
        Moment { year: from.year(), timestamp: from.unix_timestamp() },
        Moment { year: to.year(), timestamp: to.unix_timestamp() },
    )
}

/// The contents of the parameters of a certificate.
pub fn contents(params: &rcgen::CertificateParams) -> (r: Contents)
    ensures
        forall|text: &str| #[trigger]
            is_read_from(*params, text) ==> pem_contents(text@) == Some(r@),
{
    let names = names(params);
    let (not_before, not_after) = validity(params);
    Contents { names, not_before, not_after }
}

/// Whether an object identifier has a form in DER: at least two components, the
/// first below three, the second below forty under the first two arcs and small
/// enough otherwise for both to be joined in 64 bits.
pub open spec fn identifier_is_writable(identifier: Seq<u64>) -> bool {
    &&& identifier.len() >= 2
    &&& identifier[0] < 3
    &&& identifier[0] < 2 ==> identifier[1] < 40
    &&& identifier[1] < 18446744073709551535
}

/// Whether an attribute of a name can be written. A question mark may stand in a
/// `PrintableString` that is read, but not in one that is written.
pub open spec fn entry_is_writable(entry: NameEntrySpec) -> bool {
    &&& entry.identifier matches Some(identifier) ==> identifier_is_writable(identifier)
    &&& entry.printable matches Some(text) ==> !text.contains('?')
}

/// Whether a name can be written.
pub open spec fn name_is_writable(entries: Seq<NameEntrySpec>) -> bool {
    forall|i: int| 0 <= i < entries.len() ==> entry_is_writable(#[trigger] entries[i])
}

/// Whether an alternative name can be written.
pub open spec fn alternative_is_writable(identifier: Option<Seq<u64>>) -> bool {
    identifier matches Some(identifier) ==> identifier_is_writable(identifier)
}

/// Whether a constraint can be written.
pub open spec fn constraint_is_writable(constraint: ConstraintSpec) -> bool {
    match constraint {
        ConstraintSpec::Text(text) => is_ascii_chars(text),
        ConstraintSpec::Directory(entries) => name_is_writable(entries),
        ConstraintSpec::Address => true,
    }
}

/// Whether a point in time can be written. The year at its own offset decides
/// between the two forms, a short one for 1950 to 2049 and a long one for the rest
/// of 0 to 9999; in UTC it still has to lie within what that form can express.
pub open spec fn moment_is_writable(moment: Moment) -> bool {
    if 1950 <= moment.year < 2050 {
        -631152000 <= moment.timestamp < 2524608000
    } else {
        -62167219200 <= moment.timestamp < 253402300800
    }
}

/// Whether all contents of a certificate can be written.
pub open spec fn contents_are_writable(contents: ContentsSpec) -> bool {
    &&& name_is_writable(contents.names.subject)
    &&& forall|i: int|
        0 <= i < contents.names.alternative.len() ==> alternative_is_writable(
            #[trigger] contents.names.alternative[i],
        )
    &&& forall|i: int|
        0 <= i < contents.names.constraints.len() ==> constraint_is_writable(
            #[trigger] contents.names.constraints[i],
        )
    &&& moment_is_writable(contents.not_before)
    &&& moment_is_writable(contents.not_after)
}

/// Whether an object identifier can be written.
fn check_identifier(identifier: &Vec<u64>) -> (r: bool)
    ensures
        r == identifier_is_writable(identifier@),
{
    identifier.len() >= 2 && identifier[0] < 3 && (identifier[0] >= 2 || identifier[1] < 40)
        && identifier[1] < 18446744073709551535
}

/// Whether a text has no question mark in it.
fn has_no_question_mark(text: &str) -> (r: bool)
    ensures
        r == !text@.contains('?'),
{
    let chars = chars_of(text);
    let mut i: usize = 0;
    while i < chars.len()
        invariant
            i <= chars.len(),
            chars@ == text@,
            forall|j: int| 0 <= j < i ==> text@[j] != '?',
        decreases chars.len() - i,
    {
        if chars[i] == '?' {
            assert(text@[i as int] == '?');
            return false;
        }
        i += 1;
    }
    true
}

/// Whether an attribute of a name can be written.
fn check_entry(entry: &NameEntry) -> (r: bool)
    ensures
        r == entry_is_writable(entry@),
{
    let known = match &entry.identifier {
        Some(identifier) => check_identifier(identifier),
        None => true,
    };
    known && match &entry.printable {
        Some(text) => has_no_question_mark(text.as_str()),
        None => true,
    }
}

/// Whether a name can be written.
fn check_name(name: &rcgen::DistinguishedName) -> (r: bool)
    ensures
        r == name_is_writable(name_contents(*name)),
{
    let entries = name_entries(name);
    let ghost all = name_contents(*name);
    let mut i: usize = 0;
    while i < entries.len()
        invariant
            i <= entries.len(),
            all == name_contents(*name),
            all == entries@.map_values(|entry: NameEntry| entry@),
            forall|j: int| 0 <= j < i ==> entry_is_writable(#[trigger] all[j]),
        decreases entries.len() - i,
    {
        assert(all[i as int] == entries@[i as int]@);
        if !check_entry(&entries[i]) {
            return false;
        }
        i += 1;
    }
    true
}

/// Whether all alternative names can be written.
fn check_alternative(alternative: &Vec<Option<Vec<u64>>>) -> (r: bool)
    ensures
        r == forall|i: int|
            0 <= i < alternative@.len() ==> alternative_is_writable(
                components(#[trigger] alternative@[i]),
            ),
{
    let mut i: usize = 0;
    while i < alternative.len()
        invariant
            i <= alternative.len(),
            forall|j: int|
                0 <= j < i ==> alternative_is_writable(components(#[trigger] alternative@[j])),
        decreases alternative.len() - i,
    {
        let writable = match &alternative[i] {
            Some(identifier) => check_identifier(identifier),
            None => true,
        };
        if !writable {
            assert(!alternative_is_writable(components(alternative@[i as int])));
            return false;
        }
        i += 1;
    }
    true
}

/// Whether all constraints can be written.
fn check_constraints(constraints: &Vec<Constraint>) -> (r: bool)
    ensures
        r == forall|i: int|
            0 <= i < constraints@.len() ==> constraint_is_writable(#[trigger] constraints@[i]@),
{
    let mut i: usize = 0;
    while i < constraints.len()
        invariant
            i <= constraints.len(),
            forall|j: int| 0 <= j < i ==> constraint_is_writable(#[trigger] constraints@[j]@),
        decreases constraints.len() - i,
    {
        let writable = match &constraints[i] {
            Constraint::Text(text) => text.as_str().is_ascii(),
            Constraint::Directory(name) => check_name(name),
            Constraint::Address => true,
        };
        if !writable {
            assert(!constraint_is_writable(constraints@[i as int]@));
            return false;
        }
        i += 1;
    }
    true
}

/// Whether a point in time can be written.
pub fn check_moment(moment: Moment) -> (r: bool)
    ensures
        r == moment_is_writable(moment),
{
    if 1950 <= moment.year && moment.year < 2050 {
        -631152000 <= moment.timestamp && moment.timestamp < 2524608000
    } else {
        -62167219200 <= moment.timestamp && moment.timestamp < 253402300800
    }
}

/// Whether all contents of a certificate can be written.
pub fn check_contents(contents: &Contents) -> (r: bool)
    ensures
        r == contents_are_writable(contents@),
{
    let alternative = check_alternative(&contents.names.alternative);
    let constraints = check_constraints(&contents.names.constraints);
    proof {
        let names = contents.names;
        assert forall|i: int| 0 <= i < names.alternative@.len() implies names@.alternative[i]
            == components(#[trigger] names.alternative@[i]) by {}
        assert forall|i: int| 0 <= i < names.constraints@.len() implies names@.constraints[i]
            == #[trigger] names.constraints@[i]@ by {}
    }
    check_name(&contents.names.subject) && alternative && constraints && check_moment(
        contents.not_before,
    ) && check_moment(contents.not_after)
}

} // verus!
