use gci_app::civil::iso8601_from_unix_secs;
use gci_app::commands::{
    current_iso8601, fmt_fingerprint, http_status_error, iso8601_of_clock, pem_fingerprint, validate_url,
    CommandError,
};
use gci_app::ffi::FfiError;
use gci_app::pem::{pem_base64, pem_to_der};

#[test]
fn rejects_http_scheme() {
    let r = validate_url("http://example.com/");
    assert!(matches!(r, Err(CommandError::InvalidUrl(_))));
}

#[test]
fn rejects_control_chars() {
    let r = validate_url("https://example.com/\nabc");
    assert!(matches!(r, Err(CommandError::InvalidUrl(_))));
}

#[test]
fn rejects_overly_long_url() {
    let long = format!("https://example.com/{}", "a".repeat(3000));
    assert!(validate_url(&long).is_err());
}

#[test]
fn accepts_valid_https() {
    assert!(validate_url("https://gosuslugi.ru/").is_ok());
}

#[test]
fn pem_to_der_extracts_certificate_body() {
    let pem = "-----BEGIN CERTIFICATE-----\nQUJDREVGRw==\n-----END CERTIFICATE-----\n";
    let der = pem_to_der(pem).expect("PEM must decode");
    assert_eq!(der, b"ABCDEFG");
}

#[test]
fn pem_to_der_rejects_empty() {
    assert!(pem_to_der("garbage").is_err());
}

#[test]
fn fmt_fingerprint_uses_colon_uppercase_hex() {
    assert_eq!(fmt_fingerprint(&[0xAB, 0xCD, 0x01]), "AB:CD:01");
}

#[test]
fn current_iso8601_is_well_formed() {
    let s = current_iso8601();
    assert_eq!(s.len(), 20, "iso8601 must be 20 chars: {s}");
    assert!(s.ends_with('Z'));
    assert_eq!(s.chars().nth(4), Some('-'));
    assert_eq!(s.chars().nth(7), Some('-'));
    assert_eq!(s.chars().nth(10), Some('T'));
}

fn message_of(r: Result<(), CommandError>) -> String {
    match r {
        Err(CommandError::InvalidUrl(m)) => m,
        other => panic!("expected InvalidUrl, got {:?}", other),
    }
}

#[test]
fn validate_url_reports_each_refusal() {
    assert_eq!(message_of(validate_url("ftp://x/")), "only https:// allowed");
    let long = format!("https://example.com/{}", "a".repeat(3000));
    assert_eq!(message_of(validate_url(&long)), "url too long");
    assert_eq!(message_of(validate_url("https://example.com/\tx")), "url contains control chars");
    // the scheme is checked first
    assert_eq!(message_of(validate_url("http://x/\n")), "only https:// allowed");
}

#[test]
fn validate_url_wants_the_scheme_first_in_any_case() {
    assert!(validate_url("HTTPS://Example.com/").is_ok());
    assert!(validate_url("HtTpS://x").is_ok());
    assert_eq!(message_of(validate_url(" https://gosuslugi.ru/")), "only https:// allowed");
    assert_eq!(message_of(validate_url("\u{3000}https://x")), "only https:// allowed");
}

#[test]
fn validate_url_length_counts_utf8_bytes() {
    // 2048 bytes exactly: accepted
    let base = "https://example.com/";
    let ok = format!("{}{}", base, "a".repeat(2048 - base.len()));
    assert_eq!(ok.len(), 2048);
    assert!(validate_url(&ok).is_ok());
    // 2049 bytes, made of fewer characters (two-byte letters): refused
    let cyr = format!("{}{}a", base, "я".repeat((2048 - base.len()) / 2));
    assert_eq!(cyr.len(), 2049);
    assert!(validate_url(&cyr).is_err());
}

#[test]
fn validate_url_refuses_c1_control_chars() {
    assert!(validate_url("https://example.com/\u{85}").is_err());
    assert!(validate_url("https://example.com/\u{7f}").is_err());
    assert!(validate_url("https://example.com/\u{a0}").is_ok());
}

#[test]
fn command_error_messages() {
    assert_eq!(CommandError::InvalidUrl("x".to_string()).message(), "invalid URL: x");
    assert_eq!(CommandError::TrustStore("y".to_string()).message(), "trust store not available: y");
    assert_eq!(
        CommandError::Ffi(FfiError::NullResult).message(),
        "ffi: native core returned null pointer"
    );
    assert_eq!(CommandError::Internal("z".to_string()).message(), "internal: z");
    assert_eq!(CommandError::Network("n".to_string()).message(), "network: n");
    let json_err = serde_json::from_str::<serde_json::Value>("{").unwrap_err();
    assert!(CommandError::Json(json_err).message().starts_with("json: "));
}

#[test]
fn fmt_fingerprint_edges() {
    assert_eq!(fmt_fingerprint(&[]), "");
    assert_eq!(fmt_fingerprint(&[0x00]), "00");
    assert_eq!(fmt_fingerprint(&[0x0f, 0xf0, 0x9a]), "0F:F0:9A");
}

#[test]
fn iso8601_known_instants() {
    assert_eq!(iso8601_from_unix_secs(0), "1970-01-01T00:00:00Z");
    assert_eq!(iso8601_from_unix_secs(86399), "1970-01-01T23:59:59Z");
    assert_eq!(iso8601_from_unix_secs(86400), "1970-01-02T00:00:00Z");
    assert_eq!(iso8601_from_unix_secs(951782400), "2000-02-29T00:00:00Z");
    assert_eq!(iso8601_from_unix_secs(951868799), "2000-02-29T23:59:59Z");
    assert_eq!(iso8601_from_unix_secs(1709164800), "2024-02-29T00:00:00Z");
    assert_eq!(iso8601_from_unix_secs(4102444800), "2100-01-01T00:00:00Z");
    assert_eq!(iso8601_from_unix_secs(1725029869), "2024-08-30T14:57:49Z");
    assert_eq!(iso8601_from_unix_secs(253402300799), "9999-12-31T23:59:59Z");
}

#[test]
fn iso8601_years_beyond_four_digits() {
    // the year is padded to at least four digits, not cut
    assert_eq!(iso8601_from_unix_secs(253402300800), "10000-01-01T00:00:00Z");
}

#[test]
fn pem_scan_follows_the_first_block() {
    let pem = "junk\r\n-----BEGIN CERTIFICATE-----\r\n  QUJD \r\n\r\nREVGRw==\r\n-----END CERTIFICATE-----\r\n-----BEGIN CERTIFICATE-----\nWFla\n-----END CERTIFICATE-----\n";
    assert_eq!(pem_base64(pem), "QUJDREVGRw==");
    assert_eq!(pem_to_der(pem).unwrap(), b"ABCDEFG");
}

#[test]
fn pem_end_before_begin_ends_the_scan() {
    let pem = "-----END CERTIFICATE-----\n-----BEGIN CERTIFICATE-----\nQUJDREVGRw==\n";
    assert_eq!(pem_to_der(pem), Err("no CERTIFICATE block in PEM".to_string()));
}

#[test]
fn pem_bad_base64_is_reported() {
    let pem = "-----BEGIN CERTIFICATE-----\nQUJ*REVGRw==\n-----END CERTIFICATE-----\n";
    let e = pem_to_der(pem).unwrap_err();
    assert_eq!(e, "base64 decode: Invalid symbol 42, offset 3.");
}

#[test]
fn pem_fingerprint_is_sha256_of_der() {
    let pem = "-----BEGIN CERTIFICATE-----\nQUJDREVGRw==\n-----END CERTIFICATE-----\n";
    assert_eq!(
        pem_fingerprint(pem).unwrap(),
        "E9:A9:2A:2E:D0:D5:37:32:AC:13:B0:31:A2:7B:07:18:14:23:1C:86:33:C9:F4:18:44:CC:BA:88:4D:48:2B:16"
    );
    assert!(pem_fingerprint("nothing").is_err());
}

#[test]
fn http_status_errors() {
    assert_eq!(http_status_error(200), None);
    assert_eq!(http_status_error(299), None);
    assert_eq!(http_status_error(404), Some("HTTP 404".to_string()));
    assert_eq!(http_status_error(199), Some("HTTP 199".to_string()));
    assert_eq!(http_status_error(0), Some("HTTP 0".to_string()));
}

#[test]
fn iso8601_texts_follow_time_order_and_read_back() {
    let instants: [u64; 6] = [0, 59, 951_782_400, 1_709_164_800, 1_735_689_599, 253_402_300_799];
    let texts: Vec<String> = instants.iter().map(|&t| iso8601_from_unix_secs(t)).collect();
    assert_eq!(texts[5], "9999-12-31T23:59:59Z");
    for w in texts.windows(2) {
        assert!(w[0] < w[1], "{} !< {}", w[0], w[1]);
    }
    assert_eq!(iso8601_from_unix_secs(1_709_164_800), iso8601_from_unix_secs(1_709_164_800));
    assert_eq!(texts[3], "2024-02-29T00:00:00Z");
    for (t, &secs) in texts.iter().zip(instants.iter()) {
        let f = |a: usize, b: usize| t[a..b].parse::<u64>().unwrap();
        let (y, m, d) = (f(0, 4), f(5, 7), f(8, 10));
        // days from 1970-01-01 by the proleptic Gregorian calendar
        let (yy, mm) = if m <= 2 { (y - 1, m + 9) } else { (y, m - 3) };
        let era = yy / 400;
        let yoe = yy - era * 400;
        let doy = (153 * mm + 2) / 5 + d - 1;
        let doe = yoe * 365 + yoe / 4 - yoe / 100 + doy;
        let days = era * 146_097 + doe - 719_468;
        assert_eq!(days * 86_400 + f(11, 13) * 3600 + f(14, 16) * 60 + f(17, 19), secs);
    }
}

#[test]
fn clock_before_the_epoch_counts_as_the_epoch() {
    assert_eq!(iso8601_of_clock(None), "1970-01-01T00:00:00Z");
    assert_eq!(iso8601_of_clock(Some((0, 0))), "1970-01-01T00:00:00Z");
    assert_eq!(iso8601_of_clock(Some((86_400, 999))), "1970-01-02T00:00:00Z");
}
