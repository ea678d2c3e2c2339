use vstd::prelude::*;
use crate::ffi::{ffi_error_text, FfiError};
use crate::text::{
    push_char, push_decimal, decimal_digits,
    chars_of, control, is_control, push_str, starts_with, string_of, to_lowercase,
    unicode_lowercase,
};
use sha2::Digest;
use crate::civil::{is_utc_breakdown, iso8601_from_unix_secs, iso8601_text};
use crate::pem::pem_to_der;

verus! {

#[verifier::external_type_specification]
#[verifier::external_body]
pub struct ExJsonError(serde_json::Error);

/// `<serde_json::Error as Display>::to_string`. Nothing is claimed of the
/// text: it depends on the error's inner state, which is not visible here.
#[verifier::external_body]
fn json_error_text(e: &serde_json::Error) -> String {
    e.to_string()
}

/// Errors of the application commands.
#[derive(Debug)]
pub enum CommandError {
    InvalidUrl(String),
    TrustStore(String),
    Ffi(FfiError),
    Json(serde_json::Error),
    Internal(String),
    Network(String),
}

impl CommandError {
    /// The error's display text (what is sent to the front end).
    pub fn message(&self) -> (r: String)
        ensures
            match self {
                CommandError::InvalidUrl(s) => r@ == "invalid URL: "@ + s@,
                CommandError::TrustStore(s) => r@ == "trust store not available: "@ + s@,
                CommandError::Ffi(e) => r@ == "ffi: "@ + ffi_error_text(*e),
                CommandError::Json(_) => exists|t: Seq<char>| r@ == "json: "@ + t,
                CommandError::Internal(s) => r@ == "internal: "@ + s@,
                CommandError::Network(s) => r@ == "network: "@ + s@,
            },
    {
        match self {
            CommandError::InvalidUrl(s) => prefixed("invalid URL: ", s.as_str()),
            CommandError::TrustStore(s) => prefixed("trust store not available: ", s.as_str()),
            CommandError::Ffi(e) => prefixed("ffi: ", e.message().as_str()),
            CommandError::Json(e) => {
                let t = json_error_text(e);
                let r = prefixed("json: ", t.as_str());
                assert(r@ == "json: "@ + t@);
                r
            },
            CommandError::Internal(s) => prefixed("internal: ", s.as_str()),
            CommandError::Network(s) => prefixed("network: ", s.as_str()),
        }
    }
}

/// `prefix` followed by `detail`.
fn prefixed(prefix: &str, detail: &str) -> (r: String)
    ensures
        r@ == prefix@ + detail@,
{
    let mut out = string_of(prefix);
    push_str(&mut out, detail);
    out
}

pub open spec fn https_scheme() -> Seq<char> {
    seq!['h', 't', 't', 'p', 's', ':', '/', '/']
}

/// The URL itself, lowercased, starts with `https://` (nothing may come
/// before the scheme, not even white space).
pub open spec fn has_https_scheme(url: Seq<char>) -> bool {
    starts_with(unicode_lowercase(url), https_scheme())
}

pub open spec fn has_control_char(url: Seq<char>) -> bool {
    exists|i: int| 0 <= i < url.len() && is_control(url[i])
}

/// What `validate_url` refuses a URL for, if anything: the checks are made
/// in this order, and the first that fails gives the message.
pub open spec fn url_refusal(url: Seq<char>, utf8_len: nat) -> Option<Seq<char>> {
    if !has_https_scheme(url) {
        Some("only https:// allowed"@)
    } else if utf8_len > 2048 {
        Some("url too long"@)
    } else if has_control_char(url) {
        Some("url contains control chars"@)
    } else {
        None
    }
}

/// Checks a URL before it is inspected: only URLs that begin with
/// `https://` (in any case), at most 2048 bytes of UTF-8, with no control characters.
pub fn validate_url(url: &str) -> (r: Result<(), CommandError>)
    ensures
        match r {
            Ok(()) => url_refusal(url@, vstd::utf8::encode_utf8(url@).len()) is None,
            Err(CommandError::InvalidUrl(m)) => url_refusal(url@, vstd::utf8::encode_utf8(url@).len()) == Some(
                m@,
            ),
            Err(_) => false,
        },
{
    let v = chars_of(url);
    let lower = chars_of(to_lowercase(url).as_str());
    let scheme = chars_of("https://");
    proof {
        reveal_strlit("https://");
        assert("https://"@ == https_scheme());
    }
    if !crate::text::has_prefix_at(&lower, 0, &scheme) {
        assert(lower@.skip(0) == lower@);
        return Err(CommandError::InvalidUrl(string_of("only https:// allowed")));
    }
    assert(lower@.skip(0) == lower@);
    if url.as_bytes().len() > 2048 {
        return Err(CommandError::InvalidUrl(string_of("url too long")));
    }
    let mut i: usize = 0;
    while i < v.len()
        invariant
            v@ == url@,
            i <= v@.len(),
            has_https_scheme(url@),
            vstd::utf8::encode_utf8(url@).len() <= 2048,
            forall|k: int| 0 <= k < i ==> !is_control(v@[k]),
        decreases v.len() - i,
    {
        if control(v[i]) {
            assert(is_control(url@[i as int]));
            return Err(CommandError::InvalidUrl(string_of("url contains control chars")));
        }
        i += 1;
    }
    Ok(())
}


// ---------------------------------------------------------------------------
// Fingerprints
// ---------------------------------------------------------------------------

pub open spec fn hex_upper_digit(n: nat) -> char {
    if n < 10 {
        (n + 48) as char
    } else {
        (n - 10 + 65) as char
    }
}

/// The two uppercase hex digits of a byte.
pub open spec fn hex_upper_byte(b: u8) -> Seq<char> {
    seq![hex_upper_digit((b / 16) as nat), hex_upper_digit((b % 16) as nat)]
}

/// `AA:BB:CC:...`: the bytes as uppercase hex pairs separated by colons.
pub open spec fn fingerprint_text(bytes: Seq<u8>) -> Seq<char>
    decreases bytes.len(),
{
    if bytes.len() == 0 {
        Seq::<char>::empty()
    } else if bytes.len() == 1 {
        hex_upper_byte(bytes[0])
    } else {
        fingerprint_text(bytes.drop_last()) + seq![':'] + hex_upper_byte(bytes.last())
    }
}

fn hex_upper(n: u8) -> (c: char)
    requires
        n < 16,
    ensures
        c == hex_upper_digit(n as nat),
{
    if n < 10 {
        (n + 48) as char
    } else {
        (n - 10 + 65) as char
    }
}

/// Formats bytes as `AA:BB:CC:...` (the form used in the trust-store
/// manifest).
pub fn fmt_fingerprint(bytes: &[u8]) -> (r: String)
    ensures
        r@ == fingerprint_text(bytes@),
{
    let mut out = String::new();
    let mut i: usize = 0;
    assert(bytes@.take(0) =~= Seq::<u8>::empty());
    while i < bytes.len()
        invariant
            i <= bytes@.len(),
            out@ == fingerprint_text(bytes@.take(i as int)),
        decreases bytes.len() - i,
    {
        let b = bytes[i];
        assert(bytes@.take(i + 1).drop_last() =~= bytes@.take(i as int));
        if i > 0 {
            push_char(&mut out, ':');
        }
        push_char(&mut out, hex_upper(b / 16));
        push_char(&mut out, hex_upper(b % 16));
        assert(out@ =~= fingerprint_text(bytes@.take(i + 1)));
        i += 1;
    }
    assert(bytes@.take(bytes@.len() as int) =~= bytes@);
    out
}

/// The SHA-256 digest of `data` (what `sha2::Sha256::digest` returns).
pub uninterp spec fn sha256(data: Seq<u8>) -> Seq<u8>;

/// `sha2::Sha256::digest(data)`. The contract names the digest and states
/// its length, 32 bytes (the output size of SHA-256).
#[verifier::external_body]
pub(crate) fn sha256_digest(data: &[u8]) -> (r: Vec<u8>)
    ensures
        r@ == sha256(data@),
        r@.len() == 32,
{
    sha2::Sha256::digest(data).to_vec()
}

/// The text of an HTTP status code that is not a success (2xx): `HTTP <code>`.
pub fn http_status_error(status: u16) -> (r: Option<String>)
    ensures
        200 <= status <= 299 ==> r is None,
        !(200 <= status <= 299) ==> (r matches Some(m) && m@ == "HTTP "@ + decimal_digits(status as nat)),
{
    if 200 <= status && status <= 299 {
        None
    } else {
        let mut m = string_of("HTTP ");
        push_decimal(&mut m, status as u64);
        Some(m)
    }
}

/// The fingerprint of the certificate in a downloaded PEM text: SHA-256 of
/// the DER bytes of its first CERTIFICATE block, as `AA:BB:...`.
pub fn pem_fingerprint(body: &str) -> (r: Result<String, String>)
    ensures
        match (r, pem_to_der_outcome(body@)) {
            (Ok(fp), Some(der)) => fp@ == fingerprint_text(sha256(der)),
            (Err(m), None) => if crate::pem::pem_base64_text(body@).len() == 0 {
                m@ == "no CERTIFICATE block in PEM"@
            } else {
                m@ == "base64 decode: "@ + crate::pem::base64_decode_error(
                    vstd::utf8::encode_utf8(crate::pem::pem_base64_text(body@)),
                )
            },
            _ => false,
        },
{
    match pem_to_der(body) {
        Ok(der) => {
            let digest = sha256_digest(der.as_slice());
            Ok(fmt_fingerprint(digest.as_slice()))
        },
        Err(m) => Err(m),
    }
}

/// The DER bytes that `pem_to_der` returns for `pem`, if it succeeds.
pub open spec fn pem_to_der_outcome(pem: Seq<char>) -> Option<Seq<u8>> {
    let t = crate::pem::pem_base64_text(pem);
    if t.len() == 0 {
        None
    } else {
        crate::pem::base64_standard_decode(vstd::utf8::encode_utf8(t))
    }
}

// ---------------------------------------------------------------------------
// The current time
// ---------------------------------------------------------------------------

/// The system clock as (seconds, nanoseconds of the second) since
/// 1970-01-01T00:00:00Z (`SystemTime::now().duration_since(UNIX_EPOCH)`);
/// `None` where the clock is set before that. Nothing is claimed of the value
/// beyond the range of the nanoseconds: it is the time of the call.
#[verifier::external_body]
pub(crate) fn unix_time() -> (r: Option<(u64, u32)>)
    ensures
        r matches Some((_, n)) ==> n < 1_000_000_000,
{
    match std::time::SystemTime::now().duration_since(std::time::UNIX_EPOCH) {
        Ok(d) => Some((d.as_secs(), d.subsec_nanos())),
        Err(_) => None,
    }
}

/// The seconds of a clock reading; a clock set before the epoch counts as the
/// epoch itself.
pub open spec fn clock_seconds(reading: Option<(u64, u32)>) -> u64 {
    match reading {
        Some((s, _)) => s,
        None => 0,
    }
}

/// The text of the UTC time that a clock reading gives.
pub open spec fn clock_text(reading: Option<(u64, u32)>, t: Seq<char>) -> bool {
    exists|y: nat, m: nat, d: nat, hh: nat, mi: nat, ss: nat|
        is_utc_breakdown(clock_seconds(reading) as int, y, m, d, hh, mi, ss) && t == iso8601_text(
            y,
            m,
            d,
            hh,
            mi,
            ss,
        )
}

/// The UTC time of a clock reading as `YYYY-MM-DDTHH:MM:SSZ`; a clock set
/// before the epoch (`None`) gives `1970-01-01T00:00:00Z`.
pub fn iso8601_of_clock(reading: Option<(u64, u32)>) -> (r: String)
    ensures
        clock_text(reading, r@),
{
    let secs = match reading {
        Some((s, _)) => s,
        None => 0,
    };
    iso8601_from_unix_secs(secs)
}

/// The current UTC time as `YYYY-MM-DDTHH:MM:SSZ` (the epoch where the clock
/// is set before it).
pub fn current_iso8601() -> (r: String)
    ensures
        exists|reading: Option<(u64, u32)>| clock_text(reading, r@),
{
    let reading = unix_time();
    iso8601_of_clock(reading)
}

} // verus!
