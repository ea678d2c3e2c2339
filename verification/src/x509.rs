use vstd::prelude::*;
use crate::civil::{is_utc_breakdown, iso8601_text};
use x509_parser::prelude::{FromDer, GeneralName, X509Certificate};

verus! {

// ---------------------------------------------------------------------------
// What `x509_parser` reads from a DER certificate. Each reader parses the
// bytes with `X509Certificate::from_der`; the names below stand for what the
// named accessor returns on the parsed certificate.
// ---------------------------------------------------------------------------

/// The error text of `X509Certificate::from_der(der)` (`None` where it parses).
pub uninterp spec fn x509_parse_error(der: Seq<u8>) -> Option<Seq<char>>;

/// `cert.subject().to_string()`.
pub uninterp spec fn x509_subject(der: Seq<u8>) -> Seq<char>;

/// `cert.issuer().to_string()`.
pub uninterp spec fn x509_issuer(der: Seq<u8>) -> Seq<char>;

/// `cert.raw_serial_as_string()`.
pub uninterp spec fn x509_serial(der: Seq<u8>) -> Seq<char>;

/// `cert.validity().not_before.timestamp()`.
pub uninterp spec fn x509_not_before(der: Seq<u8>) -> i64;

/// `cert.validity().not_after.timestamp()`.
pub uninterp spec fn x509_not_after(der: Seq<u8>) -> i64;

/// The number of general names of the subject alternative name extension
/// (0 where there is none or it cannot be read).
pub uninterp spec fn x509_san_count(der: Seq<u8>) -> nat;

/// The `i`-th general name of the subject alternative name extension.
pub uninterp spec fn x509_san_name(der: Seq<u8>, i: int) -> Option<SanNameView>;

/// The first common name of the subject, where it is a string.
pub uninterp spec fn x509_common_name(der: Seq<u8>) -> Option<Seq<char>>;

/// `cert.signature_algorithm.algorithm.to_string()`: the OID's text
/// (dotted decimal, or hex where an arc does not fit in 64 bits).
pub uninterp spec fn x509_signature_algorithm(der: Seq<u8>) -> Seq<char>;

/// A general name of the subject alternative name extension.
pub enum SanName {
    /// `GeneralName::DNSName`.
    Dns(String),
    /// `GeneralName::IPAddress`: the raw address bytes.
    Ip(Vec<u8>),
    /// Any other kind, as its `Debug` text.
    Other(String),
}

pub enum SanNameView {
    Dns(Seq<char>),
    Ip(Seq<u8>),
    Other(Seq<char>),
}

impl View for SanName {
    type V = SanNameView;

    open spec fn view(&self) -> SanNameView {
        match self {
            SanName::Dns(s) => SanNameView::Dns(s@),
            SanName::Ip(b) => SanNameView::Ip(b@),
            SanName::Other(s) => SanNameView::Other(s@),
        }
    }
}

/// `X509Certificate::from_der(der)`: `None` where it parses, else the text of
/// its error (`to_string`).
#[verifier::external_body]
pub(crate) fn parse_failure(der: &[u8]) -> (r: Option<String>)
    ensures
        match r {
            Some(e) => x509_parse_error(der@) == Some(e@),
            None => x509_parse_error(der@) is None,
        },
{
    match X509Certificate::from_der(der) {
        Ok(_) => None,
        Err(e) => Some(e.to_string()),
    }
}

/// `cert.subject().to_string()` of the parsed certificate.
#[verifier::external_body]
pub(crate) fn subject_text(der: &[u8]) -> (r: String)
    requires
        x509_parse_error(der@) is None,
    ensures
        r@ == x509_subject(der@),
{
    match X509Certificate::from_der(der) {
        Ok((_, c)) => c.subject().to_string(),
        Err(_) => String::new(),
    }
}

/// `cert.issuer().to_string()` of the parsed certificate.
#[verifier::external_body]
pub(crate) fn issuer_text(der: &[u8]) -> (r: String)
    requires
        x509_parse_error(der@) is None,
    ensures
        r@ == x509_issuer(der@),
{
    match X509Certificate::from_der(der) {
        Ok((_, c)) => c.issuer().to_string(),
        Err(_) => String::new(),
    }
}

/// `cert.raw_serial_as_string()` of the parsed certificate.
#[verifier::external_body]
pub(crate) fn serial_text(der: &[u8]) -> (r: String)
    requires
        x509_parse_error(der@) is None,
    ensures
        r@ == x509_serial(der@),
{
    match X509Certificate::from_der(der) {
        Ok((_, c)) => c.raw_serial_as_string(),
        Err(_) => String::new(),
    }
}

/// `cert.validity().not_before.timestamp()` of the parsed certificate.
#[verifier::external_body]
pub(crate) fn not_before(der: &[u8]) -> (r: i64)
    requires
        x509_parse_error(der@) is None,
    ensures
        r == x509_not_before(der@),
{
    match X509Certificate::from_der(der) {
        Ok((_, c)) => c.validity().not_before.timestamp(),
        Err(_) => 0,
    }
}

/// `cert.validity().not_after.timestamp()` of the parsed certificate.
#[verifier::external_body]
pub(crate) fn not_after(der: &[u8]) -> (r: i64)
    requires
        x509_parse_error(der@) is None,
    ensures
        r == x509_not_after(der@),
{
    match X509Certificate::from_der(der) {
        Ok((_, c)) => c.validity().not_after.timestamp(),
        Err(_) => 0,
    }
}

/// The length of `general_names` of `cert.subject_alternative_name()`, 0
/// where that is an error or absent.
#[verifier::external_body]
pub(crate) fn san_count(der: &[u8]) -> (r: usize)
    requires
        x509_parse_error(der@) is None,
    ensures
        r == x509_san_count(der@),
{
    match X509Certificate::from_der(der) {
        Ok((_, c)) => match c.subject_alternative_name() {
            Ok(Some(ext)) => ext.value.general_names.len(),
            _ => 0,
        },
        Err(_) => 0,
    }
}

/// `general_names.get(i)` of `cert.subject_alternative_name()`, converted:
/// a DNS name to its text, an IP address to its bytes, anything else to its
/// `Debug` text. It is `Some` exactly below the count of `san_count`.
#[verifier::external_body]
pub(crate) fn san_name(der: &[u8], i: usize) -> (r: Option<SanName>)
    requires
        x509_parse_error(der@) is None,
    ensures
        (i < x509_san_count(der@)) == (r is Some),
        match r {
            Some(n) => x509_san_name(der@, i as int) == Some(n@),
            None => x509_san_name(der@, i as int) is None,
        },
{
    let parsed = X509Certificate::from_der(der);
    let names = match &parsed {
        Ok((_, c)) => match c.subject_alternative_name() {
            Ok(Some(ext)) => &ext.value.general_names,
            _ => return None,
        },
        Err(_) => return None,
    };
    match names.get(i) {
        Some(GeneralName::DNSName(s)) => Some(SanName::Dns(s.to_string())),
        Some(GeneralName::IPAddress(b)) => Some(SanName::Ip(b.to_vec())),
        Some(gn) => Some(SanName::Other(format!("{:?}", gn))),
        None => None,
    }
}

/// The first of `cert.subject().iter_common_name()`, by `as_str`, where that
/// succeeds.
#[verifier::external_body]
pub(crate) fn common_name(der: &[u8]) -> (r: Option<String>)
    requires
        x509_parse_error(der@) is None,
    ensures
        match r {
            Some(s) => x509_common_name(der@) == Some(s@),
            None => x509_common_name(der@) is None,
        },
{
    match X509Certificate::from_der(der) {
        Ok((_, c)) => match c.subject().iter_common_name().next() {
            Some(attr) => match attr.as_str() {
                Ok(s) => Some(s.to_string()),
                Err(_) => None,
            },
            None => None,
        },
        Err(_) => None,
    }
}

/// `cert.signature_algorithm.algorithm.to_string()` of the parsed certificate.
#[verifier::external_body]
pub(crate) fn signature_algorithm(der: &[u8]) -> (r: String)
    requires
        x509_parse_error(der@) is None,
    ensures
        r@ == x509_signature_algorithm(der@),
{
    match X509Certificate::from_der(der) {
        Ok((_, c)) => c.signature_algorithm.algorithm.to_string(),
        Err(_) => String::new(),
    }
}

// ---------------------------------------------------------------------------
// chrono
// ---------------------------------------------------------------------------

/// `DateTime::<Utc>::from_timestamp(secs, 0)` formatted by `to_rfc3339`;
/// `None` where the timestamp is out of chrono's range.
pub uninterp spec fn chrono_rfc3339(secs: i64) -> Option<Seq<char>>;

/// The instant of `DateTime::parse_from_rfc3339(s)` as (Unix seconds,
/// nanoseconds of the second); `None` where it does not parse.
pub uninterp spec fn chrono_parse_rfc3339(s: Seq<char>) -> Option<(i64, u32)>;

/// `YYYY-MM-DDTHH:MM:SS+00:00`: what chrono's `to_rfc3339` writes for a UTC
/// instant of a year from 0 to 9999 with no fraction of a second.
pub open spec fn rfc3339_utc_text(y: nat, m: nat, d: nat, hh: nat, mi: nat, ss: nat) -> Seq<char> {
    iso8601_text(y, m, d, hh, mi, ss).drop_last() + "+00:00"@
}

/// Where the UTC breakdown of `secs` has a year from 0 to 9999, `r` holds its
/// `rfc3339_utc_text`.
pub open spec fn rfc3339_where_four_digit_year(secs: int, r: Option<String>) -> bool {
    forall|y: nat, m: nat, d: nat, hh: nat, mi: nat, ss: nat|
        is_utc_breakdown(secs, y, m, d, hh, mi, ss) && y <= 9999 ==> (r matches Some(t) && t@
            == rfc3339_utc_text(y, m, d, hh, mi, ss))
}

/// `DateTime::<Utc>::from_timestamp(secs, 0).map(|t| t.to_rfc3339())`. For a
/// year from 0 to 9999 the contract states the text (chrono writes the
/// four-digit year, two-digit fields and the `+00:00` offset, with no
/// fraction since the nanoseconds are 0); for other years it names the
/// result.
#[verifier::external_body]
pub(crate) fn timestamp_rfc3339(secs: i64) -> (r: Option<String>)
    ensures
        match r {
            Some(s) => chrono_rfc3339(secs) == Some(s@),
            None => chrono_rfc3339(secs) is None,
        },
        rfc3339_where_four_digit_year(secs as int, r),
{
    match chrono::DateTime::<chrono::Utc>::from_timestamp(secs, 0) {
        Some(t) => Some(t.to_rfc3339()),
        None => None,
    }
}

/// `DateTime::parse_from_rfc3339(s)`, as (`timestamp()`,
/// `timestamp_subsec_nanos()`) of the instant.
#[verifier::external_body]
pub(crate) fn parse_rfc3339(s: &str) -> (r: Option<(i64, u32)>)
    ensures
        r == chrono_parse_rfc3339(s@),
{
    match chrono::DateTime::parse_from_rfc3339(s) {
        Ok(t) => Some((t.timestamp(), t.timestamp_subsec_nanos())),
        Err(_) => None,
    }
}

// ---------------------------------------------------------------------------
// hex
// ---------------------------------------------------------------------------

pub open spec fn hex_lower_digit(n: nat) -> char {
    if n < 10 {
        (n + 48) as char
    } else {
        (n - 10 + 97) as char
    }
}

/// Each byte as two lowercase hex digits.
pub open spec fn hex_lower(bytes: Seq<u8>) -> Seq<char>
    decreases bytes.len(),
{
    if bytes.len() == 0 {
        Seq::<char>::empty()
    } else {
        hex_lower(bytes.drop_last()) + seq![
            hex_lower_digit((bytes.last() / 16) as nat),
            hex_lower_digit((bytes.last() % 16) as nat),
        ]
    }
}

/// `hex::encode(bytes)`: each byte as two lowercase hex digits.
#[verifier::external_body]
pub(crate) fn hex_encode(bytes: &[u8]) -> (r: String)
    ensures
        r@ == hex_lower(bytes@),
{
    hex::encode(bytes)
}

} // verus!
