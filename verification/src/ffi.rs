use vstd::prelude::*;
use crate::dto::{
    Certificate, CertificateView, ChainEntry, ChainEntryView, ErrorEntry, InspectResult, InspectResultView,
    Validation,
};
use crate::text::{chars_of, string_of};
use crate::json::{check_json, json_error_of, json_str_member, str_member};

verus! {

/// Failures at the boundary with the inspection core.
#[derive(Debug, PartialEq, Eq, Structural, Clone, Copy)]
pub enum FfiError {
    NulInInput,
    NullResult,
    NotUtf8,
}

pub open spec fn ffi_error_text(e: FfiError) -> Seq<char> {
    match e {
        FfiError::NulInInput => "invalid input: contains NUL byte"@,
        FfiError::NullResult => "native core returned null pointer"@,
        FfiError::NotUtf8 => "native core returned non-utf8 string"@,
    }
}

impl FfiError {
    /// The error's display text.
    pub fn message(&self) -> (r: String)
        ensures
            r@ == ffi_error_text(*self),
    {
        match self {
            FfiError::NulInInput => string_of("invalid input: contains NUL byte"),
            FfiError::NullResult => string_of("native core returned null pointer"),
            FfiError::NotUtf8 => string_of("native core returned non-utf8 string"),
        }
    }
}


/// The request text can be handed to the core as a C string: it holds no NUL
/// character (`CString::new` refuses exactly those).
pub fn check_request_text(request_json: &str) -> (r: Result<(), FfiError>)
    ensures
        match r {
            Ok(()) => !request_json@.contains('\0'),
            Err(e) => request_json@.contains('\0') && e == FfiError::NulInInput,
        },
{
    let v = chars_of(request_json);
    let mut i: usize = 0;
    while i < v.len()
        invariant
            v@ == request_json@,
            i <= v@.len(),
            forall|k: int| 0 <= k < i ==> v@[k] != '\0',
        decreases v.len() - i,
    {
        if v[i] == '\0' {
            assert(request_json@[i as int] == '\0');
            return Err(FfiError::NulInInput);
        }
        i += 1;
    }
    Ok(())
}

/// `std::str::from_utf8`: the text of valid UTF-8 bytes.
#[verifier::external_body]
fn utf8_text(bytes: &[u8]) -> (r: Option<String>)
    ensures
        match r {
            Some(s) => vstd::utf8::valid_utf8(bytes@) && s@ == vstd::utf8::decode_utf8(bytes@),
            None => !vstd::utf8::valid_utf8(bytes@),
        },
{
    match std::str::from_utf8(bytes) {
        Ok(s) => Some(s.to_string()),
        Err(_) => None,
    }
}

/// The text the core answered: no answer is `NullResult`, bytes that are not
/// UTF-8 are `NotUtf8`.
pub fn reply_from_core(raw: Option<&[u8]>) -> (r: Result<String, FfiError>)
    ensures
        match raw {
            None => r == Err::<String, FfiError>(FfiError::NullResult),
            Some(b) => match r {
                Ok(s) => vstd::utf8::valid_utf8(b@) && s@ == vstd::utf8::decode_utf8(b@),
                Err(e) => !vstd::utf8::valid_utf8(b@) && e == FfiError::NotUtf8,
            },
        },
{
    match raw {
        None => Err(FfiError::NullResult),
        Some(b) => match utf8_text(b) {
            Some(s) => Ok(s),
            None => Err(FfiError::NotUtf8),
        },
    }
}

// ---------------------------------------------------------------------------
// The mock core
// ---------------------------------------------------------------------------

/// What the mock core reads of a request: its `url` and `requestId`, where
/// they are strings; or the parser's message where it is not JSON.
pub type MockRequest = Result<(Option<String>, Option<String>), String>;

/// What the mock core reads of a request text: the parser's message where
/// it is not JSON; else its `url` and `requestId` members, where they are
/// strings.
pub fn mock_request_of(request_json: &str) -> (r: MockRequest)
    ensures
        mock_request_view(r) == mock_request_spec(request_json@),
{
    match check_json(request_json) {
        Err((_, m)) => Err(m),
        Ok(()) => Ok((str_member(request_json, "url"), str_member(request_json, "requestId"))),
    }
}

/// A mock request as plain values.
pub open spec fn mock_request_view(q: MockRequest) -> Result<(Option<Seq<char>>, Option<Seq<char>>), Seq<char>> {
    match q {
        Ok((url, id)) => Ok((opt_view(url), opt_view(id))),
        Err(e) => Err(e@),
    }
}

/// What the mock core reads of a request text.
pub open spec fn mock_request_spec(text: Seq<char>) -> Result<(Option<Seq<char>>, Option<Seq<char>>), Seq<char>> {
    match json_error_of(text) {
        Some(e) => Err(e),
        None => Ok((json_str_member(text, "url"@), json_str_member(text, "requestId"@))),
    }
}

pub open spec fn mock_chain_view(
    subject: Seq<char>,
    issuer: Seq<char>,
    serial: Seq<char>,
    from: Seq<char>,
    to: Seq<char>,
    fp: Seq<char>,
) -> ChainEntryView {
    ChainEntryView {
        subject,
        issuer,
        serial_number: serial,
        valid_from: from,
        valid_to: to,
        fingerprint_sha256: fp,
    }
}

/// The mock core's answer to a request.
pub open spec fn mock_answer(q: Result<(Option<Seq<char>>, Option<Seq<char>>), Seq<char>>) -> InspectResultView {
    match q {
        Err(e) => InspectResultView {
            request_id: ""@,
            input_url: ""@,
            resolved_host: ""@,
            tls_version: ""@,
            tls_cipher: None,
            certificate: None,
            chain: Seq::empty(),
            validation: (false, false, false, false),
            is_mintsifry_ca: false,
            html: ""@,
            errors: seq![("BAD_JSON"@, e)],
        },
        Ok((url, id)) => InspectResultView {
            request_id: match id {
                Some(i) => i,
                None => "mock-rid"@,
            },
            input_url: match url {
                Some(u) => u,
                None => ""@,
            },
            resolved_host: "mock.local"@,
            tls_version: "TLS 1.3"@,
            tls_cipher: Some("TLS_AES_128_GCM_SHA256"@),
            certificate: Some(
                CertificateView {
                    subject: "CN=mock.local"@,
                    issuer: "CN=Russian Trusted Sub CA"@,
                    serial_number: "01"@,
                    valid_from: "2024-01-01T00:00:00Z"@,
                    valid_to: "2026-01-01T00:00:00Z"@,
                    san: seq!["DNS:mock.local"@],
                    cn: "mock.local"@,
                    fingerprint_sha256: "DEADBEEF"@,
                    signature_algorithm: "sha256WithRSAEncryption"@,
                },
            ),
            chain: seq![
                mock_chain_view(
                    "CN=mock.local"@,
                    "CN=Russian Trusted Sub CA"@,
                    "01"@,
                    "2024-01-01T00:00:00Z"@,
                    "2026-01-01T00:00:00Z"@,
                    "DEADBEEF"@,
                ),
                mock_chain_view(
                    "CN=Russian Trusted Sub CA"@,
                    "CN=Russian Trusted Root CA"@,
                    "02"@,
                    "2022-01-01T00:00:00Z"@,
                    "2032-01-01T00:00:00Z"@,
                    "CAFEBABE"@,
                ),
            ],
            validation: (true, true, true, true),
            is_mintsifry_ca: true,
            html: "<!doctype html><title>mock</title>"@,
            errors: Seq::empty(),
        },
    }
}

/// The mock core's answer depends on the request text alone: the answers
/// that `mock_result` gives to what `mock_request_of` reads of two equal
/// texts are equal, and they are `mock_answer` of what the text holds.
pub proof fn lemma_mock_answer_of_text(
    t1: Seq<char>,
    t2: Seq<char>,
    q1: MockRequest,
    q2: MockRequest,
    r1: InspectResult,
    r2: InspectResult,
)
    requires
        t1 == t2,
        mock_request_view(q1) == mock_request_spec(t1),
        mock_request_view(q2) == mock_request_spec(t2),
        r1@ == mock_answer(mock_request_view(q1)),
        r2@ == mock_answer(mock_request_view(q2)),
    ensures
        r1@ == r2@,
        r1@ == mock_answer(mock_request_spec(t1)),
{
}

/// The text held, if any.
pub open spec fn opt_view(o: Option<String>) -> Option<Seq<char>> {
    match o {
        Some(s) => Some(s@),
        None => None,
    }
}

fn mock_chain_entry(subject: &str, issuer: &str, serial: &str, from: &str, to: &str, fp: &str) -> (r:
    ChainEntry)
    ensures
        r.subject@ == subject@,
        r.issuer@ == issuer@,
        r.serial_number@ == serial@,
        r.valid_from@ == from@,
        r.valid_to@ == to@,
        r.fingerprint_sha256@ == fp@,
{
    ChainEntry {
        subject: string_of(subject),
        issuer: string_of(issuer),
        serial_number: string_of(serial),
        valid_from: string_of(from),
        valid_to: string_of(to),
        fingerprint_sha256: string_of(fp),
    }
}

/// The answer of the mock core, which makes no connection: a fixed
/// certificate chain of `mock.local` issued under the Russian Trusted CAs,
/// with every check passed; or a `BAD_JSON` error.
pub fn mock_result(request: MockRequest) -> (r: InspectResult)
    ensures
        r@ == mock_answer(mock_request_view(request)),
{
    match request {
        Err(e) => {
            let mut errors: Vec<ErrorEntry> = Vec::new();
            errors.push(ErrorEntry { code: string_of("BAD_JSON"), message: e });
            let r = InspectResult {
                request_id: string_of(""),
                input_url: string_of(""),
                resolved_host: string_of(""),
                tls_version: string_of(""),
                tls_cipher: None,
                certificate: None,
                chain: Vec::new(),
                validation: Validation {
                    hostname_ok: false,
                    chain_ok: false,
                    expired_ok: false,
                    mincifry_ca_ok: false,
                },
                is_mintsifry_ca: false,
                html: string_of(""),
                errors,
            };
            assert(r@.errors =~= mock_answer(mock_request_view(request)).errors);
            assert(r@.chain =~= Seq::<ChainEntryView>::empty());
            assert(r@ =~= mock_answer(mock_request_view(request)));
            r
        },
        Ok((url, request_id)) => {
            let mut san: Vec<String> = Vec::new();
            san.push(string_of("DNS:mock.local"));
            let certificate = Certificate {
                subject: string_of("CN=mock.local"),
                issuer: string_of("CN=Russian Trusted Sub CA"),
                serial_number: string_of("01"),
                valid_from: string_of("2024-01-01T00:00:00Z"),
                valid_to: string_of("2026-01-01T00:00:00Z"),
                san,
                cn: string_of("mock.local"),
                fingerprint_sha256: string_of("DEADBEEF"),
                signature_algorithm: string_of("sha256WithRSAEncryption"),
            };
            let mut chain: Vec<ChainEntry> = Vec::new();
            chain.push(
                mock_chain_entry(
                    "CN=mock.local",
                    "CN=Russian Trusted Sub CA",
                    "01",
                    "2024-01-01T00:00:00Z",
                    "2026-01-01T00:00:00Z",
                    "DEADBEEF",
                ),
            );
            chain.push(
                mock_chain_entry(
                    "CN=Russian Trusted Sub CA",
                    "CN=Russian Trusted Root CA",
                    "02",
                    "2022-01-01T00:00:00Z",
                    "2032-01-01T00:00:00Z",
                    "CAFEBABE",
                ),
            );
            let ghost want = mock_answer(mock_request_view(request));
            assert(certificate@.san =~= want.certificate.unwrap().san);
            assert(certificate@ == want.certificate.unwrap());
            assert(chain@.map_values(|e: ChainEntry| e@) =~= want.chain);
            let r = InspectResult {
                request_id: match request_id {
                    Some(id) => id,
                    None => string_of("mock-rid"),
                },
                input_url: match url {
                    Some(u) => u,
                    None => string_of(""),
                },
                resolved_host: string_of("mock.local"),
                tls_version: string_of("TLS 1.3"),
                tls_cipher: Some(string_of("TLS_AES_128_GCM_SHA256")),
                certificate: Some(certificate),
                chain,
                validation: Validation {
                    hostname_ok: true,
                    chain_ok: true,
                    expired_ok: true,
                    mincifry_ca_ok: true,
                },
                is_mintsifry_ca: true,
                html: string_of("<!doctype html><title>mock</title>"),
                errors: Vec::new(),
            };
            assert(r@.errors =~= want.errors);
            assert(r@ =~= want);
            r
        },
    }
}

} // verus!
