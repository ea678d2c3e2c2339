use gci_app::dto::InspectRequest;
use gci_app::ffi::{check_request_text, mock_request_of, mock_result, reply_from_core, FfiError};
use gci_app::rust_core::names_mincifry;

#[test]
fn request_text_with_nul_is_refused() {
    assert_eq!(check_request_text("{\"url\":\"x\"}"), Ok(()));
    assert_eq!(check_request_text("a\0b"), Err(FfiError::NulInInput));
}

#[test]
fn core_replies_are_decoded() {
    assert_eq!(reply_from_core(None), Err(FfiError::NullResult));
    assert_eq!(reply_from_core(Some("{}".as_bytes())), Ok("{}".to_string()));
    assert_eq!(reply_from_core(Some(&[0xff, 0x00])), Err(FfiError::NotUtf8));
    assert_eq!(reply_from_core(Some("минцифры".as_bytes())), Ok("минцифры".to_string()));
}

#[test]
fn ffi_error_messages() {
    assert_eq!(FfiError::NulInInput.message(), "invalid input: contains NUL byte");
    assert_eq!(FfiError::NullResult.message(), "native core returned null pointer");
    assert_eq!(FfiError::NotUtf8.message(), "native core returned non-utf8 string");
}

#[test]
fn request_defaults() {
    let r = InspectRequest::new("https://x", "/store", true);
    assert_eq!(r.url, "https://x");
    assert_eq!(r.trust_store_path, "/store");
    assert!(r.load_html);
    assert_eq!(r.timeout_ms, 15_000);
    assert_eq!(r.max_html_bytes, 1_048_576);
    assert_eq!(r.request_id.len(), 32);
    assert!(r.request_id.chars().all(|c| c.is_ascii_hexdigit() && !c.is_ascii_uppercase()));
    let r2 = InspectRequest::new("https://x", "/store", true);
    assert_ne!(r.request_id, r2.request_id);
}

#[test]
fn mock_answers_a_request() {
    let r = mock_result(Ok((Some("https://gosuslugi.ru/".to_string()), None)));
    assert_eq!(r.request_id, "mock-rid");
    assert_eq!(r.input_url, "https://gosuslugi.ru/");
    assert_eq!(r.resolved_host, "mock.local");
    assert_eq!(r.tls_version, "TLS 1.3");
    assert_eq!(r.tls_cipher.as_deref(), Some("TLS_AES_128_GCM_SHA256"));
    assert_eq!(r.chain.len(), 2);
    assert_eq!(r.chain[1].fingerprint_sha256, "CAFEBABE");
    assert_eq!(r.certificate.as_ref().unwrap().san, vec!["DNS:mock.local"]);
    assert!(r.validation.hostname_ok && r.validation.chain_ok && r.validation.expired_ok);
    assert!(r.is_mintsifry_ca);
    assert!(r.errors.is_empty());
    let r = mock_result(Ok((None, Some("rid".to_string()))));
    assert_eq!(r.request_id, "rid");
    assert_eq!(r.input_url, "");
}

#[test]
fn mock_reports_bad_json() {
    let r = mock_result(Err("expected value".to_string()));
    assert_eq!(r.request_id, "");
    assert!(r.tls_cipher.is_none());
    assert!(r.certificate.is_none());
    assert!(!r.validation.chain_ok);
    assert!(!r.is_mintsifry_ca);
    assert_eq!(r.errors.len(), 1);
    assert_eq!(r.errors[0].code, "BAD_JSON");
    assert_eq!(r.errors[0].message, "expected value");
}

#[test]
fn mincifry_markers_in_names() {
    assert!(names_mincifry("CN=Russian Trusted Root CA"));
    assert!(names_mincifry("O=The Ministry of Digital Development and Communications"));
    assert!(names_mincifry("O=МИНЦИФРЫ России"));
    assert!(names_mincifry("O=Минцифра"));
    assert!(!names_mincifry("CN=Let's Encrypt R3"));
    assert!(!names_mincifry("CN=nalog.gov.ru"));
}

#[test]
fn mock_answer_depends_on_the_text_alone() {
    let text = r#"{"requestId":"same","url":"https://x/"}"#;
    let a = mock_result(mock_request_of(text));
    let b = mock_result(mock_request_of(&String::from(text)));
    assert_eq!(a.request_id, b.request_id);
    assert_eq!(a.input_url, b.input_url);
    assert_eq!(a.chain.len(), b.chain.len());
    assert_eq!(a.certificate.as_ref().map(|c| c.subject.clone()), b.certificate.as_ref().map(|c| c.subject.clone()));
    assert_eq!(a.errors.len(), b.errors.len());
}

#[test]
fn mock_reads_url_and_request_id() {
    let q = mock_request_of(r#"{"url":"https://gosuslugi.ru/","requestId":"r9","x":1}"#);
    assert_eq!(q, Ok((Some("https://gosuslugi.ru/".to_string()), Some("r9".to_string()))));
    let r = mock_result(q);
    assert_eq!(r.request_id, "r9");
    assert_eq!(r.input_url, "https://gosuslugi.ru/");
    assert_eq!(mock_request_of(r#"{"url":5}"#), Ok((None, None)));
    let bad = mock_request_of("{oops");
    assert!(matches!(&bad, Err(m) if !m.is_empty()));
    let r = mock_result(bad);
    assert_eq!(r.errors[0].code, "BAD_JSON");
}
