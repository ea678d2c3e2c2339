use vstd::prelude::*;

verus! {

/// The end-entity certificate, as reported to the front end.
#[derive(Debug, Clone)]
pub struct Certificate {
    pub subject: String,
    pub issuer: String,
    pub serial_number: String,
    pub valid_from: String,
    pub valid_to: String,
    pub san: Vec<String>,
    pub cn: String,
    pub fingerprint_sha256: String,
    pub signature_algorithm: String,
}

/// One certificate of the presented chain.
#[derive(Debug, Clone)]
pub struct ChainEntry {
    pub subject: String,
    pub issuer: String,
    pub serial_number: String,
    pub valid_from: String,
    pub valid_to: String,
    pub fingerprint_sha256: String,
}

/// The outcome of the checks made on the connection.
#[derive(Debug, Clone)]
pub struct Validation {
    pub hostname_ok: bool,
    pub chain_ok: bool,
    pub expired_ok: bool,
    pub mincifry_ca_ok: bool,
}

/// An error reported by the inspection core.
#[derive(Debug, Clone)]
pub struct ErrorEntry {
    pub code: String,
    pub message: String,
}

/// The result of inspecting a site.
#[derive(Debug, Clone)]
pub struct InspectResult {
    pub request_id: String,
    pub input_url: String,
    pub resolved_host: String,
    pub tls_version: String,
    pub tls_cipher: Option<String>,
    pub certificate: Option<Certificate>,
    pub chain: Vec<ChainEntry>,
    pub validation: Validation,
    pub is_mintsifry_ca: bool,
    pub html: String,
    pub errors: Vec<ErrorEntry>,
}

pub struct CertificateView {
    pub subject: Seq<char>,
    pub issuer: Seq<char>,
    pub serial_number: Seq<char>,
    pub valid_from: Seq<char>,
    pub valid_to: Seq<char>,
    pub san: Seq<Seq<char>>,
    pub cn: Seq<char>,
    pub fingerprint_sha256: Seq<char>,
    pub signature_algorithm: Seq<char>,
}

impl View for Certificate {
    type V = CertificateView;

    open spec fn view(&self) -> CertificateView {
        CertificateView {
            subject: self.subject@,
            issuer: self.issuer@,
            serial_number: self.serial_number@,
            valid_from: self.valid_from@,
            valid_to: self.valid_to@,
            san: self.san@.map_values(|s: String| s@),
            cn: self.cn@,
            fingerprint_sha256: self.fingerprint_sha256@,
            signature_algorithm: self.signature_algorithm@,
        }
    }
}

pub struct ChainEntryView {
    pub subject: Seq<char>,
    pub issuer: Seq<char>,
    pub serial_number: Seq<char>,
    pub valid_from: Seq<char>,
    pub valid_to: Seq<char>,
    pub fingerprint_sha256: Seq<char>,
}

impl View for ChainEntry {
    type V = ChainEntryView;

    open spec fn view(&self) -> ChainEntryView {
        ChainEntryView {
            subject: self.subject@,
            issuer: self.issuer@,
            serial_number: self.serial_number@,
            valid_from: self.valid_from@,
            valid_to: self.valid_to@,
            fingerprint_sha256: self.fingerprint_sha256@,
        }
    }
}

/// An inspection result as plain values; the validation flags in the order
/// hostname, chain, validity period, Ministry authority; each error as
/// (code, message).
pub struct InspectResultView {
    pub request_id: Seq<char>,
    pub input_url: Seq<char>,
    pub resolved_host: Seq<char>,
    pub tls_version: Seq<char>,
    pub tls_cipher: Option<Seq<char>>,
    pub certificate: Option<CertificateView>,
    pub chain: Seq<ChainEntryView>,
    pub validation: (bool, bool, bool, bool),
    pub is_mintsifry_ca: bool,
    pub html: Seq<char>,
    pub errors: Seq<(Seq<char>, Seq<char>)>,
}

impl View for InspectResult {
    type V = InspectResultView;

    open spec fn view(&self) -> InspectResultView {
        InspectResultView {
            request_id: self.request_id@,
            input_url: self.input_url@,
            resolved_host: self.resolved_host@,
            tls_version: self.tls_version@,
            tls_cipher: match self.tls_cipher {
                Some(c) => Some(c@),
                None => None,
            },
            certificate: match self.certificate {
                Some(c) => Some(c@),
                None => None,
            },
            chain: self.chain@.map_values(|e: ChainEntry| e@),
            validation: (
                self.validation.hostname_ok,
                self.validation.chain_ok,
                self.validation.expired_ok,
                self.validation.mincifry_ca_ok,
            ),
            is_mintsifry_ca: self.is_mintsifry_ca,
            html: self.html@,
            errors: self.errors@.map_values(|e: ErrorEntry| (e.code@, e.message@)),
        }
    }
}

/// A request to the inspection core.
#[derive(Debug, Clone)]
pub struct InspectRequest<'a> {
    pub request_id: String,
    pub url: &'a str,
    pub trust_store_path: &'a str,
    pub load_html: bool,
    pub timeout_ms: u32,
    pub max_html_bytes: u32,
}

pub open spec fn is_lower_hex(c: char) -> bool {
    ('0' <= c && c <= '9') || ('a' <= c && c <= 'f')
}

/// `uuid::Uuid::new_v4().simple().to_string()`: a random (version 4) UUID in
/// its simple form, which the `uuid` documentation gives as 32 lowercase hex
/// digits without hyphens. Which digits come out is left open.
#[verifier::external_body]
fn new_request_id() -> (r: String)
    ensures
        r@.len() == 32,
        forall|i: int| 0 <= i < 32 ==> is_lower_hex(#[trigger] r@[i]),
{
    uuid::Uuid::new_v4().simple().to_string()
}

impl<'a> InspectRequest<'a> {
    /// A request with a fresh random id, a 15 s timeout and a 1 MiB limit on
    /// the page body.
    pub fn new(url: &'a str, trust_store_path: &'a str, load_html: bool) -> (r: Self)
        ensures
            r.url == url,
            r.trust_store_path == trust_store_path,
            r.load_html == load_html,
            r.timeout_ms == 15_000,
            r.max_html_bytes == 1024 * 1024,
            r.request_id@.len() == 32,
            forall|i: int| 0 <= i < 32 ==> is_lower_hex(#[trigger] r.request_id@[i]),
    {
        Self::with_request_id(new_request_id(), url, trust_store_path, load_html)
    }

    /// A request with the given id, a 15 s timeout and a 1 MiB limit on the
    /// page body.
    pub fn with_request_id(request_id: String, url: &'a str, trust_store_path: &'a str, load_html: bool) -> (r: Self)
        ensures
            r.request_id == request_id,
            r.url == url,
            r.trust_store_path == trust_store_path,
            r.load_html == load_html,
            r.timeout_ms == 15_000,
            r.max_html_bytes == 1024 * 1024,
    {
        InspectRequest {
            request_id,
            url,
            trust_store_path,
            load_html,
            timeout_ms: 15_000,
            max_html_bytes: 1024 * 1024,
        }
    }
}

} // verus!
