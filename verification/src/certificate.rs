//! Reading certificates: subjects, list records, timestamps and layout classification.
use vstd::prelude::*;
use x509_parser::extensions::GeneralName;
use crate::model::Failure;
use crate::subject::{SubjectArgs, SubjectView};
use crate::text::{
    contains, decimal, decimal_string, opt_text, owned, push_char, split_on, split_text, starts_with,
    text_contains, text_eq, text_starts_with, trim, trim_text, chars_of, string_of,
};
use crate::tree::{count_true, CertificateRecord};

verus! {

/// The DER contents of the first PEM block in the bytes, as `x509_parser::pem::parse_x509_pem` decodes it.
pub uninterp spec fn pem_block(bytes: Seq<u8>) -> Option<Seq<u8>>;

/// The subject of a DER certificate in `x509_parser`'s text form (`X509Name` display).
pub uninterp spec fn x509_subject(der: Seq<u8>) -> Option<Seq<char>>;

/// The issuer of a DER certificate in `x509_parser`'s text form.
pub uninterp spec fn x509_issuer(der: Seq<u8>) -> Option<Seq<char>>;

/// The first common name of a DER certificate's subject, as text (empty when it is not a
/// string type), or none when the subject has no common name.
pub uninterp spec fn x509_common_name(der: Seq<u8>) -> Option<Option<Seq<char>>>;

/// The general names of a DER certificate's subject alternative name extension, each a DNS
/// name or something else; no entries when the extension is absent or unreadable.
pub uninterp spec fn x509_san_entries(der: Seq<u8>) -> Option<Seq<Option<Seq<char>>>>;

/// The object identifier of a DER certificate's public key algorithm, as dotted text.
pub uninterp spec fn x509_key_algorithm(der: Seq<u8>) -> Option<Seq<char>>;

/// The end of a DER certificate's validity, in Unix seconds.
pub uninterp spec fn x509_not_after(der: Seq<u8>) -> Option<int>;

/// The path length constraint of a DER certificate's basic constraints extension: `None`
/// when the certificate or the extension cannot be read, `Some(None)` when the extension or
/// its constraint is absent.
pub uninterp spec fn x509_path_len(der: Seq<u8>) -> Option<Option<u32>>;

/// The view of optional bytes.
pub open spec fn opt_bytes(value: Option<Vec<u8>>) -> Option<Seq<u8>> {
    match value {
        Some(v) => Some(v@),
        None => None,
    }
}

/// The view of optional entries of optional text.
pub open spec fn opt_entries(value: Option<Vec<Option<String>>>) -> Option<Seq<Option<Seq<char>>>> {
    match value {
        Some(v) => Some(v@.map_values(|e: Option<String>| opt_text(e))),
        None => None,
    }
}

/// The view of an optional optional text.
pub open spec fn opt_opt_text(value: Option<Option<String>>) -> Option<Option<Seq<char>>> {
    match value {
        Some(v) => Some(opt_text(v)),
        None => None,
    }
}

/// Decodes the first PEM block of the bytes.
///
/// Trusted: calls `x509_parser::pem::parse_x509_pem` and hands back the decoded contents;
/// the contract names the result `pem_block` of the input bytes.
#[verifier::external_body]
fn pem_contents(bytes: &[u8]) -> (r: Option<Vec<u8>>)
    ensures
        opt_bytes(r) == pem_block(bytes@),
{
    x509_parser::pem::parse_x509_pem(bytes).ok().map(|(_, pem)| pem.contents)
}

/// Trusted: parses the DER bytes with `x509_parser::parse_x509_certificate` and displays
/// the subject name; the contract names the result `x509_subject` of the bytes.
#[verifier::external_body]
fn certificate_subject(der: &[u8]) -> (r: Option<String>)
    ensures
        opt_text(r) == x509_subject(der@),
{
    x509_parser::parse_x509_certificate(der).ok().map(|(_, c)| c.subject().to_string())
}

/// Trusted: parses the DER bytes with `x509_parser::parse_x509_certificate` and displays
/// the issuer name; the contract names the result `x509_issuer` of the bytes.
#[verifier::external_body]
fn certificate_issuer(der: &[u8]) -> (r: Option<String>)
    ensures
        opt_text(r) == x509_issuer(der@),
{
    x509_parser::parse_x509_certificate(der).ok().map(|(_, c)| c.issuer().to_string())
}

/// Trusted: parses the DER bytes with `x509_parser::parse_x509_certificate` and takes the
/// first `iter_common_name` value as text (empty when `as_str` refuses it); the contract
/// names the result `x509_common_name` of the bytes.
#[verifier::external_body]
fn certificate_common_name(der: &[u8]) -> (r: Option<Option<String>>)
    ensures
        opt_opt_text(r) == x509_common_name(der@),
{
    x509_parser::parse_x509_certificate(der).ok().map(|(_, c)| {
        c.subject().iter_common_name().next().map(|v| v.as_str().unwrap_or_default().to_owned())
    })
}

/// Trusted: parses the DER bytes with `x509_parser::parse_x509_certificate` and lists the
/// general names of `subject_alternative_name`, a DNS name as its text and any other kind
/// as nothing (no entries when the extension is absent or refused); the contract names the
/// result `x509_san_entries` of the bytes.
#[verifier::external_body]
fn certificate_san_entries(der: &[u8]) -> (r: Option<Vec<Option<String>>>)
    ensures
        opt_entries(r) == x509_san_entries(der@),
{
    let (_, cert) = x509_parser::parse_x509_certificate(der).ok()?;
    let san = cert.subject_alternative_name().ok().flatten();
    Some(san.map_or(Vec::new(), |ext| ext.value.general_names.iter().map(|name| match name {
        GeneralName::DNSName(value) => Some(value.to_string()),
        _ => None,
    }).collect()))
}

/// Trusted: parses the DER bytes with `x509_parser::parse_x509_certificate` and displays the
/// public key algorithm identifier; the contract names the result `x509_key_algorithm`.
#[verifier::external_body]
fn certificate_key_algorithm(der: &[u8]) -> (r: Option<String>)
    ensures
        opt_text(r) == x509_key_algorithm(der@),
{
    x509_parser::parse_x509_certificate(der).ok().map(|(_, c)| c.public_key().algorithm.algorithm.to_string())
}

/// Trusted: parses the DER bytes with `x509_parser::parse_x509_certificate` and takes
/// `validity().not_after.timestamp()`; the contract names the result `x509_not_after`.
#[verifier::external_body]
fn certificate_not_after(der: &[u8]) -> (r: Option<i64>)
    ensures
        match r {
            Some(t) => x509_not_after(der@) == Some(t as int),
            None => x509_not_after(der@) is None,
        },
{
    x509_parser::parse_x509_certificate(der).ok().map(|(_, c)| c.validity().not_after.timestamp())
}


/// Trusted: parses the DER bytes with `x509_parser::parse_x509_certificate`, reads
/// `basic_constraints()` (refused when invalid or repeated) and takes its
/// `path_len_constraint`; the contract names the result `x509_path_len`.
#[verifier::external_body]
fn certificate_path_len(der: &[u8]) -> (r: Option<Option<u32>>)
    ensures
        r == x509_path_len(der@),
{
    let (_, cert) = x509_parser::parse_x509_certificate(der).ok()?;
    let constraints = cert.basic_constraints().ok()?;
    Some(constraints.and_then(|ext| ext.value.path_len_constraint))
}

/// The path length constraint of the certificate in the first PEM block of the bytes.
pub open spec fn pem_path_len(bytes: Seq<u8>) -> Option<Option<u32>> {
    match pem_block(bytes) {
        Some(der) => x509_path_len(der),
        None => None,
    }
}

/// Reads the path length constraint of a PEM certificate.
pub fn path_len_of(bytes: &[u8]) -> (r: Option<Option<u32>>)
    ensures
        r == pem_path_len(bytes@),
{
    match pem_contents(bytes) {
        Some(der) => certificate_path_len(der.as_slice()),
        None => None,
    }
}

/// The end of validity of the certificate in the first PEM block of the bytes.
pub open spec fn pem_not_after(bytes: Seq<u8>) -> Option<int> {
    match pem_block(bytes) {
        Some(der) => x509_not_after(der),
        None => None,
    }
}

/// Reads the end of validity of a PEM certificate, in Unix seconds.
pub fn not_after_of(bytes: &[u8]) -> (r: Option<i64>)
    ensures
        match r {
            Some(t) => pem_not_after(bytes@) == Some(t as int),
            None => pem_not_after(bytes@) is None,
        },
{
    match pem_contents(bytes) {
        Some(der) => certificate_not_after(der.as_slice()),
        None => None,
    }
}

/// The value of the first field (after trimming) that starts with `prefix`, without the prefix.
pub open spec fn first_field(fields: Seq<Seq<char>>, prefix: Seq<char>) -> Option<Seq<char>>
    decreases fields.len(),
{
    if fields.len() == 0 {
        None
    } else if starts_with(trim(fields[0]), prefix) {
        Some(trim(fields[0]).subrange(prefix.len() as int, trim(fields[0]).len() as int))
    } else {
        first_field(fields.drop_first(), prefix)
    }
}

/// The value of an attribute in a comma-separated subject text such as `CN=a, O=b`.
pub open spec fn subject_value(subject: Seq<char>, prefix: Seq<char>) -> Option<Seq<char>> {
    first_field(split_on(subject, ','), prefix)
}

fn field_value(fields: &Vec<String>, prefix: &str) -> (r: Option<String>)
    ensures
        opt_text(r) == first_field(fields.deep_view(), prefix@),
{
    let ghost fv = fields.deep_view();
    let p = chars_of(prefix);
    let mut i: usize = 0;
    assert(fv.skip(0) =~= fv);
    while i < fields.len()
        invariant
            fv == fields.deep_view(),
            p@ == prefix@,
            i <= fv.len(),
            first_field(fv, prefix@) == first_field(fv.skip(i as int), prefix@),
        decreases fields.len() - i,
    {
        let field = trim_text(fields[i].as_str());
        assert(fv.skip(i as int)[0] == fv[i as int]);
        if text_starts_with(field.as_str(), prefix) {
            let v = chars_of(field.as_str());
            return Some(string_of(v.as_slice(), p.len(), v.len()));
        }
        assert(fv.skip(i as int).drop_first() =~= fv.skip(i + 1));
        i = i + 1;
    }
    None
}

/// The subject fields named in a subject text: the common name (empty when absent) and
/// each optional attribute where present.
pub open spec fn subject_from(subject: Seq<char>) -> SubjectView {
    SubjectView {
        common_name: match subject_value(subject, "CN="@) {
            Some(v) => v,
            None => Seq::empty(),
        },
        organization: subject_value(subject, "O="@),
        organizational_unit: subject_value(subject, "OU="@),
        country: subject_value(subject, "C="@),
        state: subject_value(subject, "ST="@),
        locality: subject_value(subject, "L="@),
    }
}

/// Reads the subject fields out of a subject text such as `CN=Root, O=Example`.
pub fn subject_from_text(subject: &str) -> (r: SubjectArgs)
    ensures
        r@ == subject_from(subject@),
{
    let fields = split_text(subject, ',');
    let common_name = match field_value(&fields, "CN=") {
        Some(v) => v,
        None => String::new(),
    };
    SubjectArgs {
        common_name,
        organization: field_value(&fields, "O="),
        organizational_unit: field_value(&fields, "OU="),
        country: field_value(&fields, "C="),
        state: field_value(&fields, "ST="),
        locality: field_value(&fields, "L="),
    }
}

/// Reads the subject of a parent certificate given as PEM bytes.
pub fn read_subject(bytes: &[u8]) -> (r: Result<SubjectArgs, Failure>)
    ensures
        match pem_block(bytes@) {
            None => r matches Err(e) && e.0 == 4 && e.1@ == "parent certificate is not PEM"@,
            Some(der) => match x509_subject(der) {
                None => r matches Err(e) && e.0 == 4 && e.1@ == "parent certificate is not X.509"@,
                Some(text) => r matches Ok(s) && s@ == subject_from(text),
            },
        },
{
    let der = match pem_contents(bytes) {
        Some(der) => der,
        None => {
            return Err((4, owned("parent certificate is not PEM")));
        },
    };
    let subject = match certificate_subject(der.as_slice()) {
        Some(s) => s,
        None => {
            return Err((4, owned("parent certificate is not X.509")));
        },
    };
    Ok(subject_from_text(subject.as_str()))
}

/// The display name of a key algorithm: RSA, ECDSA or Ed25519 by their object identifiers,
/// or the identifier text itself.
pub open spec fn algorithm_name(oid: Seq<char>) -> Seq<char> {
    if contains(oid, "1.2.840.113549.1.1"@) {
        "RSA"@
    } else if contains(oid, "1.2.840.10045"@) {
        "ECDSA"@
    } else if contains(oid, "1.3.101.112"@) {
        "Ed25519"@
    } else {
        oid
    }
}

/// The display name of a key algorithm identifier.
pub fn format_algorithm(value: String) -> (r: String)
    ensures
        r@ == algorithm_name(value@),
{
    if text_contains(value.as_str(), "1.2.840.113549.1.1") {
        owned("RSA")
    } else if text_contains(value.as_str(), "1.2.840.10045") {
        owned("ECDSA")
    } else if text_contains(value.as_str(), "1.3.101.112") {
        owned("Ed25519")
    } else {
        value
    }
}


/// The proleptic Gregorian date (year, month, day) of the day `days` after 1970-01-01
/// (before it when negative), counted in 400-year eras from 0000-03-01.
pub open spec fn civil_date(days: int) -> (int, int, int) {
    let z = days + 719468;
    let era = z / 146097;
    let doe = z - era * 146097;
    let yoe = (doe - doe / 1460 + doe / 36524 - doe / 146096) / 365;
    let doy = doe - (365 * yoe + yoe / 4 - yoe / 100);
    let mp = (5 * doy + 2) / 153;
    let day = doy - (153 * mp + 2) / 5 + 1;
    let month = if mp < 10 {
        mp + 3
    } else {
        mp - 9
    };
    (yoe + era * 400 + if month <= 2 {
        1int
    } else {
        0int
    }, month, day)
}

/// The Unix timestamps that `time::OffsetDateTime::from_unix_timestamp` accepts: from
/// -9999-01-01 00:00:00 to 9999-12-31 23:59:59 UTC.
pub open spec fn utc_in_range(timestamp: int) -> bool {
    -377705116800 <= timestamp <= 253402300799
}

/// The UTC calendar date (year, month, day) of a Unix timestamp; none outside the range.
pub open spec fn utc_calendar_date(timestamp: int) -> Option<(int, int, int)> {
    if utc_in_range(timestamp) {
        Some(civil_date(timestamp / 86400))
    } else {
        None
    }
}

/// Converts a Unix timestamp to UTC calendar fields.
///
/// Trusted: calls `time::OffsetDateTime::from_unix_timestamp` and reads year, month, day,
/// hour and minute. The contract states what the crate's source computes: an error outside
/// the range of `Date::MIN` to `Date::MAX` (years -9999 to 9999), otherwise the Gregorian
/// date of the day `timestamp / 86400` (floored) and the hour and minute of the seconds
/// within that day.
#[verifier::external_body]
fn utc_fields(timestamp: i64) -> (r: Option<(i32, u8, u8, u8, u8)>)
    ensures
        match r {
            Some((year, month, day, hour, minute)) => {
                &&& utc_calendar_date(timestamp as int) == Some((year as int, month as int, day as int))
                &&& 1 <= month <= 12
                &&& 1 <= day <= 31
                &&& hour as int == (timestamp as int % 86400) / 3600
                &&& minute as int == ((timestamp as int % 86400) % 3600) / 60
            },
            None => utc_calendar_date(timestamp as int) is None,
        },
{
    match time::OffsetDateTime::from_unix_timestamp(timestamp) {
        Ok(v) => Some((v.year(), u8::from(v.month()), v.day(), v.hour(), v.minute())),
        Err(_) => None,
    }
}

/// Decimal text of `n` padded with leading zeros to `width` characters.
pub open spec fn zero_padded(n: nat, width: nat) -> Seq<char> {
    if decimal(n).len() < width {
        Seq::new((width - decimal(n).len()) as nat, |i: int| '0') + decimal(n)
    } else {
        decimal(n)
    }
}

/// Decimal text of `n` with a sign when negative, padded with zeros after the sign to
/// `width` characters in all, as std's `{:0width}` formats integers.
pub open spec fn signed_padded(n: int, width: nat) -> Seq<char> {
    if n < 0 {
        seq!['-'] + zero_padded((-n) as nat, if width > 0 { (width - 1) as nat } else { 0 })
    } else {
        zero_padded(n as nat, width)
    }
}

fn padded_string(n: u64, width: usize) -> (r: String)
    ensures
        r@ == zero_padded(n as nat, width as nat),
{
    let digits = decimal_string(n);
    let len = digits.as_str().unicode_len();
    let mut r = String::new();
    if len < width {
        let mut i: usize = 0;
        while i < width - len
            invariant
                len < width,
                i <= width - len,
                r@ == Seq::new(i as nat, |k: int| '0'),
            decreases width - len - i,
        {
            push_char(&mut r, '0');
            i = i + 1;
            assert(r@ =~= Seq::new(i as nat, |k: int| '0'));
        }
    }
    r.append(digits.as_str());
    proof {
        if len >= width {
            assert(r@ =~= decimal(n as nat));
        }
    }
    r
}

fn signed_padded_string(n: i64, width: usize) -> (r: String)
    ensures
        r@ == signed_padded(n as int, width as nat),
{
    if n < 0 {
        let magnitude: u64 = ((-(n + 1)) as u64) + 1;
        let mut r = String::new();
        push_char(&mut r, '-');
        let w = if width > 0 {
            width - 1
        } else {
            0
        };
        let rest = padded_string(magnitude, w);
        r.append(rest.as_str());
        assert(r@ =~= seq!['-'] + zero_padded((-(n as int)) as nat, w as nat));
        r
    } else {
        padded_string(n as u64, width)
    }
}

/// A UTC time shown as `YYYY-MM-DD HH:MM UTC`.
pub open spec fn calendar_text(year: int, month: nat, day: nat, hour: nat, minute: nat) -> Seq<char> {
    signed_padded(year, 4) + "-"@ + zero_padded(month, 2) + "-"@ + zero_padded(day, 2) + " "@
        + zero_padded(hour, 2) + ":"@ + zero_padded(minute, 2) + " UTC"@
}

/// How an expiry time is shown: its UTC date and time, or `unix:<seconds>` for a
/// timestamp outside the calendar range.
pub open spec fn timestamp_text(timestamp: int) -> Seq<char> {
    match utc_calendar_date(timestamp) {
        Some((year, month, day)) => calendar_text(
            year,
            month as nat,
            day as nat,
            ((timestamp % 86400) / 3600) as nat,
            (((timestamp % 86400) % 3600) / 60) as nat,
        ),
        None => "unix:"@ + signed_padded(timestamp, 0),
    }
}

/// Shows a UTC date and time as `YYYY-MM-DD HH:MM UTC`.
pub fn utc_text(year: i32, month: u8, day: u8, hour: u8, minute: u8) -> (r: String)
    ensures
        r@ == calendar_text(year as int, month as nat, day as nat, hour as nat, minute as nat),
{
    let mut r = signed_padded_string(year as i64, 4);
    r.append("-");
    let m = padded_string(month as u64, 2);
    r.append(m.as_str());
    r.append("-");
    let d = padded_string(day as u64, 2);
    r.append(d.as_str());
    r.append(" ");
    let h = padded_string(hour as u64, 2);
    r.append(h.as_str());
    r.append(":");
    let mi = padded_string(minute as u64, 2);
    r.append(mi.as_str());
    r.append(" UTC");
    r
}

/// Formats an expiry time for display.
pub fn format_timestamp(timestamp: i64) -> (r: String)
    ensures
        r@ == timestamp_text(timestamp as int),
{
    match utc_fields(timestamp) {
        Some((year, month, day, hour, minute)) => utc_text(year, month, day, hour, minute),
        None => {
            let mut r = owned("unix:");
            let t = signed_padded_string(timestamp, 0);
            r.append(t.as_str());
            r
        },
    }
}

/// What a path relative to the PKI directory says about the certificate: its logical
/// name, its kind and its profile, for roots and intermediates at
/// `<profile>/<root|intermediate>/<name>/ca/certs/...` and leaves at
/// `<profile>/certs/<name>/certs/...`; anything else is unclassified.
pub open spec fn classification(path: Seq<char>) -> (Option<Seq<char>>, Seq<char>, Option<Seq<char>>) {
    let parts = split_on(path, '/');
    if parts.len() >= 6 && parts[1] == "root"@ && parts[3] == "ca"@ && parts[4] == "certs"@ {
        (Some(parts[2]), "root_ca"@, Some(parts[0]))
    } else if parts.len() >= 6 && parts[1] == "intermediate"@ && parts[3] == "ca"@ && parts[4]
        == "certs"@ {
        (Some(parts[2]), "intermediate_ca"@, Some(parts[0]))
    } else if parts.len() >= 5 && parts[1] == "certs"@ && parts[3] == "certs"@ {
        (Some(parts[2]), "certificate"@, Some(parts[0]))
    } else {
        (None, "unclassified"@, None)
    }
}

/// Classifies a certificate path relative to the PKI directory.
pub fn classify_certificate_path(path: &str) -> (r: (Option<String>, String, Option<String>))
    ensures
        (opt_text(r.0), r.1@, opt_text(r.2)) == classification(path@),
{
    let parts = split_text(path, '/');
    let ghost pv = parts.deep_view();
    if parts.len() >= 6 && text_eq(parts[1].as_str(), "root") && text_eq(parts[3].as_str(), "ca")
        && text_eq(parts[4].as_str(), "certs") {
        return (Some(parts[2].clone()), owned("root_ca"), Some(parts[0].clone()));
    }
    if parts.len() >= 6 && text_eq(parts[1].as_str(), "intermediate") && text_eq(
        parts[3].as_str(),
        "ca",
    ) && text_eq(parts[4].as_str(), "certs") {
        return (Some(parts[2].clone()), owned("intermediate_ca"), Some(parts[0].clone()));
    }
    if parts.len() >= 5 && text_eq(parts[1].as_str(), "certs") && text_eq(
        parts[3].as_str(),
        "certs",
    ) {
        return (Some(parts[2].clone()), owned("certificate"), Some(parts[0].clone()));
    }
    (None, owned("unclassified"), None)
}

/// A file found in the PKI directory is listed when its name ends in `.pem`, `.crt` or
/// `.cer`, it is not under a `/private/` directory, and its name does not mention `key`,
/// `csr` or `chain`.
pub open spec fn listed_file(name: Seq<char>, relative: Seq<char>) -> bool {
    &&& (crate::text::ends_with(name, ".pem"@) || crate::text::ends_with(name, ".crt"@)
        || crate::text::ends_with(name, ".cer"@))
    &&& !contains(relative, "/private/"@)
    &&& !contains(name, "key"@)
    &&& !contains(name, "csr"@)
    &&& !contains(name, "chain"@)
}

/// Whether a file found while listing is a certificate to read.
pub fn is_certificate_file(name: &str, relative: &str) -> (r: bool)
    ensures
        r == listed_file(name@, relative@),
{
    (crate::text::text_ends_with(name, ".pem") || crate::text::text_ends_with(name, ".crt")
        || crate::text::text_ends_with(name, ".cer")) && !text_contains(relative, "/private/")
        && !text_contains(name, "key") && !text_contains(name, "csr") && !text_contains(
        name,
        "chain",
    )
}

/// The DNS names among subject alternative name entries, in order.
pub open spec fn dns_names(entries: Seq<Option<Seq<char>>>) -> Seq<Seq<char>>
    decreases entries.len(),
{
    if entries.len() == 0 {
        Seq::empty()
    } else {
        match entries.last() {
            Some(v) => dns_names(entries.drop_last()).push(v),
            None => dns_names(entries.drop_last()),
        }
    }
}

fn collect_dns_names(entries: &Vec<Option<String>>) -> (r: Vec<String>)
    ensures
        r.deep_view() == dns_names(entries@.map_values(|e: Option<String>| opt_text(e))),
{
    let ghost ev = entries@.map_values(|e: Option<String>| opt_text(e));
    let mut r: Vec<String> = Vec::new();
    let mut i: usize = 0;
    assert(ev.take(0) =~= Seq::<Option<Seq<char>>>::empty());
    while i < entries.len()
        invariant
            ev == entries@.map_values(|e: Option<String>| opt_text(e)),
            i <= entries@.len(),
            r.deep_view() == dns_names(ev.take(i as int)),
        decreases entries.len() - i,
    {
        assert(ev.take(i + 1).drop_last() =~= ev.take(i as int));
        assert(ev.take(i + 1).last() == opt_text(entries@[i as int]));
        match &entries[i] {
            Some(v) => {
                let ghost before = r.deep_view();
                r.push(v.clone());
                assert(r.deep_view() =~= before.push(v@));
            },
            None => {},
        }
        i = i + 1;
    }
    assert(ev.take(i as int) =~= ev);
    r
}

/// Whether the subject alternative names of an issued certificate are those requested:
/// each requested DNS name is among its DNS names, each of its DNS names was requested as
/// one, and it has as many other entries as IP addresses were requested.
pub open spec fn issued_sans_match(
    entries: Seq<Option<Seq<char>>>,
    sans: Seq<Seq<char>>,
    addresses: Seq<bool>,
) -> bool {
    &&& forall|i: int| 0 <= i < sans.len() && !addresses[i] ==> dns_names(entries).contains(#[trigger] sans[i])
    &&& forall|k: int|
        0 <= k < dns_names(entries).len() ==> exists|i: int|
            0 <= i < sans.len() && !addresses[i] && sans[i] == #[trigger] dns_names(entries)[k]
    &&& dns_names(entries).len() + count_true(addresses) == entries.len()
}

/// What checking an issued certificate against the requested subject alternative names
/// gives: code 11 when the bytes hold no readable certificate or its names differ.
pub open spec fn issued_sans_check(bytes: Seq<u8>, sans: Seq<Seq<char>>, addresses: Seq<bool>) -> Result<
    (),
    (u8, Seq<char>),
> {
    match pem_block(bytes) {
        Some(der) => match x509_san_entries(der) {
            Some(entries) => if issued_sans_match(entries, sans, addresses) {
                Ok(())
            } else {
                Err((11, "issued certificate does not carry the requested subject alternative names"@))
            },
            None => Err((11, "issued certificate is not X.509"@)),
        },
        None => Err((11, "issued certificate is not PEM"@)),
    }
}

fn names_contain(names: &Vec<String>, x: &str) -> (r: bool)
    ensures
        r == names.deep_view().contains(x@),
{
    let mut k: usize = 0;
    while k < names.len()
        invariant
            k <= names@.len(),
            forall|j: int| 0 <= j < k ==> names.deep_view()[j] != x@,
        decreases names.len() - k,
    {
        if text_eq(names[k].as_str(), x) {
            assert(names.deep_view()[k as int] == x@);
            return true;
        }
        k = k + 1;
    }
    false
}

fn requested_as_name(sans: &Vec<String>, addresses: &Vec<bool>, x: &str) -> (r: bool)
    requires
        addresses@.len() == sans@.len(),
    ensures
        r == exists|i: int| 0 <= i < sans@.len() && !addresses@[i] && sans.deep_view()[i] == x@,
{
    let mut i: usize = 0;
    while i < sans.len()
        invariant
            addresses@.len() == sans@.len(),
            i <= sans@.len(),
            forall|j: int| 0 <= j < i ==> !(!addresses@[j] && sans.deep_view()[j] == x@),
        decreases sans.len() - i,
    {
        if !addresses[i] && text_eq(sans[i].as_str(), x) {
            assert(sans.deep_view()[i as int] == x@);
            return true;
        }
        i = i + 1;
    }
    false
}

/// Checks that an issued PEM certificate carries the requested subject alternative names,
/// `addresses[i]` telling whether `sans[i]` is an IP address.
pub fn check_issued_sans(bytes: &[u8], sans: &Vec<String>, addresses: &Vec<bool>) -> (r: Result<(), Failure>)
    requires
        addresses@.len() == sans@.len(),
    ensures
        match r {
            Ok(()) => issued_sans_check(bytes@, sans.deep_view(), addresses@) is Ok,
            Err(e) => issued_sans_check(bytes@, sans.deep_view(), addresses@) == Err::<(), (u8, Seq<char>)>(
                (e.0, e.1@),
            ),
        },
{
    let der = match pem_contents(bytes) {
        Some(der) => der,
        None => {
            return Err((11, owned("issued certificate is not PEM")));
        },
    };
    let entries = match certificate_san_entries(der.as_slice()) {
        Some(entries) => entries,
        None => {
            return Err((11, owned("issued certificate is not X.509")));
        },
    };
    let ghost ev = entries@.map_values(|e: Option<String>| opt_text(e));
    assert(opt_entries(Some(entries)) == Some(ev));
    let names = collect_dns_names(&entries);
    let mut i: usize = 0;
    let mut addresses_count: usize = 0;
    while i < sans.len()
        invariant
            addresses@.len() == sans@.len(),
            i <= sans@.len(),
            names.deep_view() == dns_names(ev),
            pem_block(bytes@) == Some(der@),
            x509_san_entries(der@) == Some(ev),
            addresses_count == count_true(addresses@.take(i as int)),
            addresses_count <= i,
            forall|j: int| 0 <= j < i && !addresses@[j] ==> dns_names(ev).contains(#[trigger] sans.deep_view()[j]),
        decreases sans.len() - i,
    {
        assert(addresses@.take(i + 1).drop_last() =~= addresses@.take(i as int));
        if addresses[i] {
            addresses_count = addresses_count + 1;
        } else if !names_contain(&names, sans[i].as_str()) {
            assert(!dns_names(ev).contains(sans.deep_view()[i as int]));
            assert(!issued_sans_match(ev, sans.deep_view(), addresses@));
            return Err((11, owned("issued certificate does not carry the requested subject alternative names")));
        }
        i = i + 1;
    }
    assert(addresses@.take(i as int) =~= addresses@);
    let mut k: usize = 0;
    while k < names.len()
        invariant
            addresses@.len() == sans@.len(),
            k <= names@.len(),
            names.deep_view() == dns_names(ev),
            pem_block(bytes@) == Some(der@),
            x509_san_entries(der@) == Some(ev),
            forall|m: int|
                0 <= m < k ==> exists|j: int|
                    0 <= j < sans@.len() && !addresses@[j] && sans.deep_view()[j] == #[trigger] dns_names(ev)[m],
        decreases names.len() - k,
    {
        if !requested_as_name(sans, addresses, names[k].as_str()) {
            assert(names.deep_view()[k as int] == dns_names(ev)[k as int]);
            assert(!issued_sans_match(ev, sans.deep_view(), addresses@)) by {
                if issued_sans_match(ev, sans.deep_view(), addresses@) {
                    assert(exists|j: int|
                        0 <= j < sans@.len() && !addresses@[j] && sans.deep_view()[j] == dns_names(ev)[k as int]);
                }
            }
            return Err((11, owned("issued certificate does not carry the requested subject alternative names")));
        }
        k = k + 1;
    }
    if names.len() as u128 + addresses_count as u128 != entries.len() as u128 {
        return Err((11, owned("issued certificate does not carry the requested subject alternative names")));
    }
    assert(issued_sans_match(ev, sans.deep_view(), addresses@));
    Ok(())
}

/// The list record of a certificate with these fields, found at `relative`: subject,
/// issuer, first common name (a placeholder where there is none), DNS names, key algorithm
/// and expiry, with the name, kind and profile its path implies.
pub open spec fn record_fields(
    relative: Seq<char>,
    subject: Seq<char>,
    issuer: Seq<char>,
    common_name: Option<Seq<char>>,
    entries: Seq<Option<Seq<char>>>,
    oid: Seq<char>,
    expires: Seq<char>,
    r: CertificateRecord,
) -> bool {
    &&& r.path@ == relative
    &&& (opt_text(r.name), r.kind@, opt_text(r.profile)) == classification(relative)
    &&& r.common_name@ == match common_name {
        Some(v) => v,
        None => "<no common name>"@,
    }
    &&& r.algorithm@ == algorithm_name(oid)
    &&& r.expires@ == expires
    &&& r.issuer@ == issuer
    &&& r.subject@ == subject
    &&& r.domains.deep_view() == dns_names(entries)
}

/// The list record of a certificate read from PEM bytes found at `relative`.
pub open spec fn record_of(bytes: Seq<u8>, relative: Seq<char>, r: CertificateRecord) -> bool {
    match pem_block(bytes) {
        Some(der) => match (
            x509_subject(der),
            x509_issuer(der),
            x509_common_name(der),
            x509_san_entries(der),
            x509_key_algorithm(der),
            x509_not_after(der),
        ) {
            (Some(subject), Some(issuer), Some(cn), Some(entries), Some(oid), Some(not_after)) =>
                record_fields(relative, subject, issuer, cn, entries, oid, timestamp_text(not_after), r),
            _ => false,
        },
        None => false,
    }
}

/// Builds the list record of a certificate from the fields read out of it, its displayed
/// expiry, and its path relative to the PKI directory.
pub fn record_from_fields(
    relative: &str,
    subject: String,
    issuer: String,
    common_name: Option<String>,
    entries: &Vec<Option<String>>,
    oid: String,
    expires: String,
) -> (r: CertificateRecord)
    ensures
        record_fields(
            relative@,
            subject@,
            issuer@,
            opt_text(common_name),
            entries@.map_values(|e: Option<String>| opt_text(e)),
            oid@,
            expires@,
            r,
        ),
{
    let common_name = match common_name {
        Some(v) => v,
        None => owned("<no common name>"),
    };
    let domains = collect_dns_names(entries);
    let (name, kind, profile) = classify_certificate_path(relative);
    CertificateRecord {
        path: owned(relative),
        name,
        kind,
        profile,
        common_name,
        algorithm: format_algorithm(oid),
        expires,
        issuer,
        subject,
        domains,
    }
}

/// Builds the list record of a certificate from its PEM bytes and its path relative to the
/// PKI directory; bytes that are not PEM, or not an X.509 certificate, are refused.
pub fn parse_certificate(bytes: &[u8], relative: &str) -> (r: Result<CertificateRecord, String>)
    ensures
        match r {
            Ok(record) => record_of(bytes@, relative@, record),
            Err(e) => match pem_block(bytes@) {
                None => e@ == "not PEM"@,
                Some(der) => e@ == "not X.509"@ && (x509_subject(der) is None || x509_issuer(
                    der,
                ) is None || x509_common_name(der) is None || x509_san_entries(der) is None
                    || x509_key_algorithm(der) is None || x509_not_after(der) is None),
            },
        },
{
    let der = match pem_contents(bytes) {
        Some(der) => der,
        None => {
            return Err(owned("not PEM"));
        },
    };
    let d = der.as_slice();
    match (
        certificate_subject(d),
        certificate_issuer(d),
        certificate_common_name(d),
        certificate_san_entries(d),
        certificate_key_algorithm(d),
        certificate_not_after(d),
    ) {
        (Some(subject), Some(issuer), Some(cn), Some(entries), Some(oid), Some(not_after)) => {
            let expires = format_timestamp(not_after);
            Ok(record_from_fields(relative, subject, issuer, cn, &entries, oid, expires))
        },
        _ => Err(owned("not X.509")),
    }
}

} // verus!
