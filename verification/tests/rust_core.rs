use gci_app::rust_core::{
    check_server_name, connect_address, connection_report_at, error_response, extract_host,
    extract_html_body, extract_port, failure_report, format_san, http_get_request,
    inspect_params, is_cert_file, names_mincifry, parse_cert, plan_connection, read_more,
    san_matches_host, trust_store_certs, CoreFailure, CoreReport, InspectParams, TlsProtocol,
};
use gci_app::x509::SanName;

const CERT_DER: &[u8] = &[0x30, 0x82, 0x01, 0x59, 0x30, 0x81, 0xff, 0xa0, 0x03, 0x02, 0x01, 0x02, 0x02, 0x02, 0x01, 0x02, 0x30, 0x0a, 0x06, 0x08, 0x2a, 0x86, 0x48, 0xce, 0x3d, 0x04, 0x03, 0x02, 0x30, 0x21, 0x31, 0x1f, 0x30, 0x1d, 0x06, 0x03, 0x55, 0x04, 0x03, 0x0c, 0x16, 0x52, 0x75, 0x73, 0x73, 0x69, 0x61, 0x6e, 0x20, 0x54, 0x72, 0x75, 0x73, 0x74, 0x65, 0x64, 0x20, 0x53, 0x75, 0x62, 0x20, 0x43, 0x41, 0x30, 0x1e, 0x17, 0x0d, 0x32, 0x34, 0x30, 0x31, 0x30, 0x31, 0x30, 0x30, 0x30, 0x30, 0x30, 0x30, 0x5a, 0x17, 0x0d, 0x33, 0x30, 0x30, 0x31, 0x30, 0x31, 0x30, 0x30, 0x30, 0x30, 0x30, 0x30, 0x5a, 0x30, 0x17, 0x31, 0x15, 0x30, 0x13, 0x06, 0x03, 0x55, 0x04, 0x03, 0x0c, 0x0c, 0x67, 0x6f, 0x73, 0x75, 0x73, 0x6c, 0x75, 0x67, 0x69, 0x2e, 0x72, 0x75, 0x30, 0x59, 0x30, 0x13, 0x06, 0x07, 0x2a, 0x86, 0x48, 0xce, 0x3d, 0x02, 0x01, 0x06, 0x08, 0x2a, 0x86, 0x48, 0xce, 0x3d, 0x03, 0x01, 0x07, 0x03, 0x42, 0x00, 0x04, 0x01, 0xef, 0x56, 0x48, 0xc1, 0x0a, 0xcc, 0x05, 0xe1, 0x21, 0x1a, 0x54, 0x9b, 0xe7, 0x47, 0x94, 0x40, 0x21, 0x1b, 0xe9, 0xcf, 0xb0, 0x3e, 0xe0, 0xaa, 0xd8, 0xbf, 0x28, 0xf0, 0x27, 0xb2, 0xdd, 0x7e, 0x3f, 0x26, 0x66, 0x21, 0x0e, 0x5a, 0x7a, 0xbe, 0xad, 0xb1, 0x6f, 0x14, 0xb2, 0x72, 0xc0, 0xd9, 0x59, 0x84, 0x73, 0x68, 0xbf, 0x69, 0xb2, 0x1b, 0x85, 0xba, 0x45, 0x8c, 0x20, 0xae, 0x91, 0xa3, 0x31, 0x30, 0x2f, 0x30, 0x2d, 0x06, 0x03, 0x55, 0x1d, 0x11, 0x04, 0x26, 0x30, 0x24, 0x82, 0x0c, 0x67, 0x6f, 0x73, 0x75, 0x73, 0x6c, 0x75, 0x67, 0x69, 0x2e, 0x72, 0x75, 0x82, 0x0e, 0x2a, 0x2e, 0x67, 0x6f, 0x73, 0x75, 0x73, 0x6c, 0x75, 0x67, 0x69, 0x2e, 0x72, 0x75, 0x87, 0x04, 0x0a, 0x00, 0x00, 0x01, 0x30, 0x0a, 0x06, 0x08, 0x2a, 0x86, 0x48, 0xce, 0x3d, 0x04, 0x03, 0x02, 0x03, 0x49, 0x00, 0x30, 0x46, 0x02, 0x21, 0x00, 0xe3, 0xa5, 0x28, 0xf4, 0xa1, 0xa6, 0x76, 0x11, 0x94, 0xe5, 0x57, 0x22, 0xe6, 0x9d, 0x03, 0x2d, 0xe2, 0x72, 0xce, 0x77, 0xe5, 0x08, 0x85, 0xb6, 0x39, 0x24, 0xd8, 0xee, 0xe7, 0xf0, 0xf1, 0x4b, 0x02, 0x21, 0x00, 0xed, 0x91, 0xea, 0x7c, 0x57, 0x0e, 0x92, 0x6f, 0x47, 0xb9, 0x9e, 0xd1, 0x54, 0xc2, 0xeb, 0x7e, 0xde, 0x6a, 0xff, 0xe9, 0x94, 0xb5, 0x90, 0x7b, 0xc3, 0xf0, 0x12, 0x47, 0x08, 0xac, 0x68, 0xc9];
const CERT_SHA256: &str = "c9983af8e35665061eb6d5f30bff05e652e7c4ec3906b1d15d8fd00565d11391";

#[test]
fn host_and_port_of_urls() {
    assert_eq!(extract_host("https://gosuslugi.ru/"), Some("gosuslugi.ru".to_string()));
    assert_eq!(extract_host("https://gosuslugi.ru:8443/x"), Some("gosuslugi.ru".to_string()));
    assert_eq!(extract_host("http://a.b"), Some("a.b".to_string()));
    assert_eq!(extract_host("ftp://a.b"), None);
    assert_eq!(extract_host("https://"), None);
    assert_eq!(extract_host("https://:443/"), None);
    assert_eq!(extract_port("https://gosuslugi.ru:8443/x"), Some(8443));
    assert_eq!(extract_port("https://gosuslugi.ru/x:99"), None);
    assert_eq!(extract_port("https://h:+80"), Some(80));
    assert_eq!(extract_port("https://h:65535"), Some(65535));
    assert_eq!(extract_port("https://h:65536"), None);
    assert_eq!(extract_port("https://h:"), None);
    assert_eq!(extract_port("https://h:8a"), None);
    assert_eq!(extract_port("https://h:1:2"), None);
    assert_eq!(extract_port("https://h:000443"), Some(443));
}

#[test]
fn plan_uses_port_443_by_default() {
    let p = InspectParams::from_fields(
        Some("https://nalog.gov.ru/".to_string()),
        Some("rid".to_string()),
        Some("/store".to_string()),
        None,
        None,
        None,
    );
    assert!(p.load_html);
    assert_eq!(p.timeout_ms, 15000);
    assert_eq!(p.max_html_bytes, 1_048_576);
    assert_eq!(p.trust_store_path, "/store");
    match plan_connection(&p) {
        Ok((host, port)) => {
            assert_eq!(host, "nalog.gov.ru");
            assert_eq!(port, 443);
        }
        Err(_) => panic!("a host is there"),
    }
}

fn refusal(url: &str) -> CoreReport {
    let p = InspectParams::from_fields(
        Some(url.to_string()),
        Some("r1".to_string()),
        Some("/store".to_string()),
        None,
        None,
        None,
    );
    match plan_connection(&p) {
        Ok(_) => panic!("refused URL was planned: {url}"),
        Err(r) => r,
    }
}

fn only_error(r: &CoreReport) -> (&str, &str) {
    assert_eq!(r.errors.len(), 1);
    assert!(r.certificate.is_none() && r.chain.is_empty());
    assert!(!r.validation.hostname_ok && !r.validation.chain_ok);
    assert!(!r.validation.expired_ok && !r.validation.mincifry_ca_ok);
    (r.errors[0].code.as_str(), r.errors[0].message.as_str())
}

#[test]
fn plan_refuses_a_url_without_host() {
    let p = InspectParams::from_fields(Some("gosuslugi.ru".to_string()), None, None, Some(false), Some(5), Some(10));
    assert!(!p.load_html);
    assert_eq!(p.timeout_ms, 5);
    assert_eq!(p.max_html_bytes, 10);
    let r = refusal("https:///index.html");
    assert_eq!(r.request_id, "r1");
    assert_eq!(r.input_url, "https:///index.html");
    assert_eq!(only_error(&r), ("URL_PARSE", "cannot extract host from URL"));
}

#[test]
fn plan_refuses_other_schemes_bad_ports_and_empty_urls() {
    assert_eq!(only_error(&refusal("http://gosuslugi.ru/")), ("URL_PARSE", "scheme is not https"));
    assert_eq!(only_error(&refusal("gosuslugi.ru")), ("URL_PARSE", "scheme is not https"));
    assert_eq!(only_error(&refusal("https://gosuslugi.ru:abc/")), ("URL_PARSE", "invalid port in URL"));
    assert_eq!(only_error(&refusal("https://gosuslugi.ru:70000/")), ("URL_PARSE", "invalid port in URL"));
    assert_eq!(only_error(&refusal("https://gosuslugi.ru:/")), ("URL_PARSE", "invalid port in URL"));
    assert_eq!(only_error(&refusal("")), ("EMPTY_URL", "url is empty"));
    let p = InspectParams::from_fields(Some("https://a.b:8443/x".to_string()), None, Some("/s".to_string()), None, None, None);
    assert_eq!(plan_connection(&p).ok(), Some(("a.b".to_string(), 8443)));
    // an empty trust-store path is refused after an empty URL, before the URL's form
    let p = InspectParams::from_fields(Some("http://a.b".to_string()), Some("r".to_string()), None, None, None, None);
    assert_eq!(only_error(&refusal_of(&p)), ("EMPTY_TRUST", "trust store path is empty"));
    let p = InspectParams::from_fields(None, None, None, None, None, None);
    assert_eq!(only_error(&refusal_of(&p)), ("EMPTY_URL", "url is empty"));
}

#[test]
fn request_text_is_read_with_defaults() {
    let p = inspect_params(r#"{"requestId":"r1","url":"https:///index.html"}"#).ok().expect("JSON");
    assert_eq!(p.request_id, "r1");
    assert_eq!(p.url, "https:///index.html");
    assert_eq!(p.trust_store_path, "");
    assert!(p.load_html);
    assert_eq!(p.timeout_ms, 15000);
    assert_eq!(p.max_html_bytes, 1_048_576);
    let r = refusal_of(&p);
    assert_eq!(r.request_id, "r1");
    assert_eq!(only_error(&r).0, "EMPTY_TRUST");
    let p = inspect_params(r#"{"requestId":"r1","url":"https:///index.html","trustStorePath":"/s"}"#)
        .ok()
        .expect("JSON");
    let r = refusal_of(&p);
    assert_eq!(r.request_id, "r1");
    assert_eq!(r.input_url, "https:///index.html");
    assert_eq!(only_error(&r), ("URL_PARSE", "cannot extract host from URL"));

    let p = inspect_params(
        r#"{"url":"https://x","trustStorePath":"/s","loadHtml":false,"timeoutMs":7,"maxHtmlBytes":9,"requestId":5}"#,
    )
    .ok()
    .expect("JSON");
    assert_eq!(p.request_id, "");
    assert_eq!(p.trust_store_path, "/s");
    assert!(!p.load_html);
    assert_eq!(p.timeout_ms, 7);
    assert_eq!(p.max_html_bytes, 9);

    match inspect_params("{not json") {
        Ok(_) => panic!("not JSON"),
        Err(r) => {
            assert_eq!(r.request_id, "");
            assert_eq!(r.input_url, "");
            assert_eq!(only_error(&r).0, "BAD_JSON");
            assert!(!r.errors[0].message.is_empty());
        }
    }
}

fn refusal_of(p: &InspectParams) -> CoreReport {
    match plan_connection(p) {
        Ok(_) => panic!("refused URL was planned"),
        Err(r) => r,
    }
}

#[test]
fn certificate_files_of_the_trust_store() {
    assert!(is_cert_file("root.pem"));
    assert!(is_cert_file("sub.crt"));
    assert!(!is_cert_file(".pem"));
    assert!(!is_cert_file("notes.txt"));
    assert!(!is_cert_file("root.pem.bak"));
    let b64: String = {
        let mut t = String::new();
        let table = b"ABCDEFGHIJKLMNOPQRSTUVWXYZabcdefghijklmnopqrstuvwxyz0123456789+/";
        for chunk in CERT_DER.chunks(3) {
            let b = [chunk[0], *chunk.get(1).unwrap_or(&0), *chunk.get(2).unwrap_or(&0)];
            let n = ((b[0] as u32) << 16) | ((b[1] as u32) << 8) | b[2] as u32;
            for k in 0..4 {
                if k <= chunk.len() {
                    t.push(table[((n >> (18 - 6 * k)) & 63) as usize] as char);
                } else {
                    t.push('=');
                }
            }
        }
        t
    };
    let pem = format!("-----BEGIN CERTIFICATE-----\n{}\n-----END CERTIFICATE-----\n", b64);
    let files = vec![
        ("a.pem".to_string(), pem.clone().into_bytes()),
        ("b.txt".to_string(), pem.clone().into_bytes()),
        ("c.crt".to_string(), format!("{pem}{pem}").into_bytes()),
    ];
    let certs = trust_store_certs(&files);
    assert_eq!(certs.len(), 3);
    assert!(certs.iter().all(|c| c.as_slice() == CERT_DER));
}

#[test]
fn error_response_has_one_error_and_no_checks() {
    let r = error_response("rid", "https://x/", "TLS_HANDSHAKE", "boom");
    assert_eq!(r.request_id, "rid");
    assert_eq!(r.input_url, "https://x/");
    assert_eq!(r.tls_version, "");
    assert!(r.certificate.is_none());
    assert!(r.chain.is_empty());
    assert!(!r.validation.hostname_ok && !r.validation.expired_ok && !r.validation.mincifry_ca_ok);
    assert!(!r.is_mintsifry_ca);
    assert_eq!(r.errors[0].code, "TLS_HANDSHAKE");
    assert_eq!(r.errors[0].message, "boom");
}

#[test]
fn failures_are_coded() {
    let r = failure_report("rid", "u", CoreFailure::TcpConnect { addr: connect_address("h", 443), detail: "refused".to_string() });
    assert_eq!(r.errors[0].code, "TLS_HANDSHAKE");
    assert_eq!(r.errors[0].message, "cannot connect to h:443: refused");
    let r = failure_report("rid", "u", CoreFailure::BadJson("eof".to_string()));
    assert_eq!(r.request_id, "");
    assert_eq!(r.input_url, "");
    assert_eq!(r.errors[0].code, "BAD_JSON");
    assert_eq!(r.errors[0].message, "eof");
    let r = failure_report("rid", "u", CoreFailure::TlsSetup("x".to_string()));
    assert_eq!(r.errors[0].code, "TLS_HANDSHAKE");
    assert_eq!(r.errors[0].message, "TLS setup failed: x");
    let r = failure_report("rid", "u", CoreFailure::Handshake("alert".to_string()));
    assert_eq!(r.errors[0].code, "TLS_HANDSHAKE");
    assert_eq!(r.errors[0].message, "TLS handshake failed: alert");
    let r = failure_report("rid", "u", CoreFailure::ChainRejected("unknown issuer".to_string()));
    assert_eq!(r.errors[0].code, "CHAIN_INVALID");
    assert_eq!(r.errors[0].message, "certificate chain rejected: unknown issuer");
    let r = failure_report("rid", "u", CoreFailure::HttpWrite("closed".to_string()));
    assert_eq!(r.errors[0].code, "HTTP_GET");
    assert_eq!(r.errors[0].message, "HTTP request failed: closed");
    assert_eq!(r.request_id, "rid");
    assert_eq!(r.input_url, "u");
}

#[test]
fn server_names() {
    assert!(check_server_name("rid", "u", "gosuslugi.ru").is_none());
    assert!(check_server_name("rid", "u", "10.0.0.1").is_none());
    let r = check_server_name("rid", "u", "bad host!").expect("not a DNS name");
    assert_eq!(r.errors[0].code, "URL_PARSE");
    assert_eq!(r.errors[0].message, "invalid server name: invalid dns name");
}

#[test]
fn http_request_text() {
    assert_eq!(
        http_get_request("gosuslugi.ru"),
        "GET / HTTP/1.1\r\nHost: gosuslugi.ru\r\nConnection: close\r\nUser-Agent: GosCertInspector/1.0\r\n\r\n"
    );
    assert_eq!(connect_address("a.b", 8443), "a.b:8443");
    assert!(read_more(0, 1));
    assert!(read_more(1, 1));
    assert!(!read_more(2, 1));
}

#[test]
fn html_body_after_headers() {
    assert_eq!(extract_html_body(b"HTTP/1.1 200 OK\r\nA: b\r\n\r\n<html>x</html>"), "<html>x</html>");
    assert_eq!(extract_html_body(b"HTTP/1.0 200 OK\n\nbody\n\nmore"), "body\n\nmore");
    assert_eq!(extract_html_body(b"no headers"), "no headers");
    assert_eq!(extract_html_body(b"a\r\n\r\nb\r\n\r\nc"), "b\r\n\r\nc");
    assert_eq!(extract_html_body(&[b'h', b'\n', b'\n', 0xff]), "\u{fffd}");
}

#[test]
fn san_wildcards_cover_one_label() {
    let host = |h: &str| h.chars().collect::<Vec<char>>();
    assert!(san_matches_host("DNS:gosuslugi.ru", &host("gosuslugi.ru")));
    assert!(san_matches_host("dns:GOSUSLUGI.RU", &host("gosuslugi.ru")));
    assert!(san_matches_host("gosuslugi.ru", &host("gosuslugi.ru")));
    assert!(san_matches_host("DNS:*.gosuslugi.ru", &host("www.gosuslugi.ru")));
    assert!(san_matches_host("DNS:*.example.com", &host("a.example.com")));
    assert!(!san_matches_host("DNS:*.example.com", &host("aexample.com")));
    assert!(!san_matches_host("DNS:*.gosuslugi.ru", &host("a.www.gosuslugi.ru")));
    assert!(!san_matches_host("DNS:*.gosuslugi.ru", &host("gosuslugi.ru")));
    assert!(!san_matches_host("DNS:*.gosuslugi.ru", &host(".gosuslugi.ru")));
    assert!(!san_matches_host("DNS:*.gosuslugi.ru", &host("nalog.ru")));
    assert!(!san_matches_host("IP:10.0.0.1", &host("10.0.0.1")));
}

#[test]
fn ministry_markers_are_read_from_the_leaf_issuer_and_other_subjects() {
    let now = (1_735_689_600i64, 0u32);
    let one = vec![CERT_DER.to_vec()];
    let two = vec![CERT_DER.to_vec(), CERT_DER.to_vec()];
    let flag = |certs: &Vec<Vec<u8>>| {
        connection_report_at(String::new(), String::new(), "gosuslugi.ru".to_string(), None, None, certs, false, 0, b"", now)
            .validation
            .mincifry_ca_ok
    };
    // the leaf's issuer is "CN=Russian Trusted Sub CA"
    assert!(flag(&one));
    assert!(flag(&two));
    assert!(!flag(&Vec::new()));
}

#[test]
fn san_names_are_formatted() {
    assert_eq!(format_san(&SanName::Dns("a.ru".to_string())), "DNS:a.ru");
    assert_eq!(format_san(&SanName::Ip(vec![10, 0, 0, 1])), "IP:10.0.0.1");
    assert_eq!(format_san(&SanName::Ip(vec![1, 2, 255])), "IP:[1, 2, 255]");
    assert_eq!(format_san(&SanName::Ip(vec![])), "IP:[]");
    assert_eq!(format_san(&SanName::Other("URI(\"x\")".to_string())), "URI(\"x\")");
}

#[test]
fn unparsable_certificate_is_reported_with_its_error() {
    let r = parse_cert(&[0x30, 0x03, 0x01]);
    assert!(r.parse_error.is_some());
    assert_eq!(r.subject, "");
    assert_eq!(r.fingerprint_sha256, "");
    assert!(r.san.is_empty());
}

#[test]
fn certificate_fields_are_read() {
    let r = parse_cert(CERT_DER);
    assert!(r.parse_error.is_none());
    assert!(r.subject.contains("gosuslugi.ru"), "{}", r.subject);
    assert!(r.issuer.contains("Russian Trusted Sub CA"), "{}", r.issuer);
    assert_eq!(r.serial_number, "01:02");
    assert_eq!(r.valid_from, "2024-01-01T00:00:00+00:00");
    assert_eq!(r.valid_to, "2030-01-01T00:00:00+00:00");
    assert_eq!(r.san, vec!["DNS:gosuslugi.ru", "DNS:*.gosuslugi.ru", "IP:10.0.0.1"]);
    assert_eq!(r.cn, "gosuslugi.ru");
    assert_eq!(r.fingerprint_sha256, CERT_SHA256);
    assert_eq!(r.signature_algorithm, "1.2.840.10045.4.3.2");
    assert!(names_mincifry(&r.issuer));
    assert!(!names_mincifry(&r.subject));
}

#[test]
fn connection_report_checks_the_leaf() {
    let certs = vec![CERT_DER.to_vec()];
    let now_2025 = (1_735_689_600i64, 0u32);
    let r = connection_report_at(
        "rid".to_string(),
        "https://gosuslugi.ru/".to_string(),
        "GOSUSLUGI.ru".to_string(),
        Some(TlsProtocol::Tls13),
        Some("TLS13_AES_128_GCM_SHA256".to_string()),
        &certs,
        true,
        1_048_576,
        b"HTTP/1.1 200 OK\r\n\r\n<p>hi</p>",
        now_2025,
    );
    assert_eq!(r.tls_version, "TLS 1.3");
    assert_eq!(r.tls_cipher, "TLS13_AES_128_GCM_SHA256");
    assert!(r.validation.hostname_ok);
    assert!(r.validation.chain_ok);
    assert!(r.validation.expired_ok);
    assert!(r.validation.mincifry_ca_ok);
    assert!(r.is_mintsifry_ca);
    assert_eq!(r.chain.len(), 1);
    assert_eq!(r.certificate.as_ref().unwrap().cn, "gosuslugi.ru");
    assert_eq!(r.html, "<p>hi</p>");
    assert!(r.errors.is_empty());

    let now_2031 = (1_924_992_000i64, 0u32);
    let r = connection_report_at(
        "rid".to_string(),
        "https://nalog.ru/".to_string(),
        "nalog.ru".to_string(),
        Some(TlsProtocol::Tls12),
        None,
        &certs,
        false,
        4,
        b"ignored",
        now_2031,
    );
    assert_eq!(r.tls_version, "TLS 1.2");
    assert_eq!(r.tls_cipher, "");
    assert!(!r.validation.hostname_ok);
    assert!(!r.validation.expired_ok);
    assert_eq!(r.html, "");
    let codes: Vec<&str> = r.errors.iter().map(|e| e.code.as_str()).collect();
    assert_eq!(codes, vec!["HOSTNAME_MISMATCH", "EXPIRED"]);
    assert_eq!(r.errors[0].message, "certificate does not cover the host");
    assert_eq!(r.errors[1].message, "certificate is outside its validity period");
}

#[test]
fn connection_report_without_certificates() {
    let r = connection_report_at(
        "rid".to_string(),
        "https://x/".to_string(),
        "x".to_string(),
        None,
        None,
        &Vec::new(),
        false,
        0,
        b"",
        (0, 0),
    );
    assert_eq!(r.tls_version, "unknown");
    assert!(r.validation.hostname_ok);
    assert!(!r.validation.chain_ok);
    assert!(r.validation.expired_ok);
    assert!(!r.validation.mincifry_ca_ok);
    assert!(r.certificate.is_none());
    assert_eq!(r.errors.len(), 1);
    assert_eq!(r.errors[0].code, "NO_PEER_CERT");
    assert_eq!(r.errors[0].message, "server presented no certificate");
}

#[test]
fn page_is_cut_to_the_limit_and_status_reported() {
    let certs = vec![CERT_DER.to_vec()];
    let now = (1_735_689_600i64, 0u32);
    let report = |load: bool, max: usize, resp: &[u8]| {
        connection_report_at(String::new(), String::new(), "gosuslugi.ru".to_string(), None, None, &certs, load, max, resp, now)
    };
    let page = b"HTTP/1.1 200 OK\r\n\r\n0123456789";
    let r = report(true, 21, page);
    assert_eq!(r.html, "01");
    assert_eq!(r.errors.len(), 1);
    assert_eq!(r.errors[0].code, "HTML_TRUNCATED");
    assert_eq!(r.errors[0].message, "page body cut to 21 bytes");
    let r = report(true, page.len(), page);
    assert_eq!(r.html, "0123456789");
    assert!(r.errors.is_empty());
    let r = report(false, 3, page);
    assert_eq!(r.html, "");
    assert!(r.errors.is_empty());
    let r = report(true, 1000, b"HTTP/1.1 404 Not Found\r\n\r\nmissing");
    assert_eq!(r.html, "missing");
    assert_eq!(r.errors.len(), 1);
    assert_eq!(r.errors[0].code, "HTTP_STATUS");
    assert_eq!(r.errors[0].message, "HTTP 404");
    let r = report(true, 1000, b"HTTP/1.1 399 Odd\r\n\r\n");
    assert!(r.errors.is_empty());
}

#[test]
fn validity_period_holds_both_bounds() {
    let certs = vec![CERT_DER.to_vec()];
    let not_before = 1_704_067_200i64; // 2024-01-01T00:00:00Z
    let not_after = 1_893_456_000i64; // 2030-01-01T00:00:00Z
    let at = |now: (i64, u32)| {
        connection_report_at(String::new(), String::new(), "gosuslugi.ru".to_string(), None, None, &certs, false, 0, b"", now)
            .validation
            .expired_ok
    };
    assert!(!at((not_before - 1, 999_999_999)));
    assert!(at((not_before, 0)));
    assert!(at((not_after - 1, 999_999_999)));
    assert!(at((not_after, 0)));
    assert!(!at((not_after, 1)));
}
