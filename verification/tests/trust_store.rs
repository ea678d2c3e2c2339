use gci_app::commands::CommandError;
use gci_app::trust_store::{bundled_fingerprint, update_sources, UpdateCheck};

/// A manifest in the shape of the bundled one.
const MANIFEST: &str = r#"{
  "version": "2024.1",
  "issuer": "Russian Trusted Root CA",
  "roots": [
    {"fingerprintSha256": "00"},
    {"file": "roots/russian-trusted-root-ca.pem", "fingerprintSha256": "D2:6D:2D:11"},
    {"file": "roots/russian-trusted-root-ca.pem", "fingerprintSha256": "FF"}
  ],
  "intermediates": [
    {"file": "intermediates/russian-trusted-sub-ca.pem", "fingerprintSha256": 7}
  ],
  "other": {"file": "roots/russian-trusted-root-ca.pem"}
}"#;

#[test]
fn bundled_fingerprint_returns_known_value() {
    let fp = bundled_fingerprint(MANIFEST, "roots", "roots/russian-trusted-root-ca.pem")
        .expect("bundled fingerprint must exist");
    assert!(fp.starts_with("D2:6D:2D"), "unexpected bundled fingerprint: {fp}");
}

#[test]
fn bundled_fingerprint_finds_the_first_match() {
    let m = MANIFEST;
    assert_eq!(
        bundled_fingerprint(m, "roots", "roots/russian-trusted-root-ca.pem"),
        Some("D2:6D:2D:11".to_string())
    );
    assert_eq!(bundled_fingerprint(m, "intermediates", "intermediates/russian-trusted-sub-ca.pem"), None);
    assert_eq!(bundled_fingerprint(m, "roots", "missing.pem"), None);
    assert_eq!(bundled_fingerprint(m, "other", "roots/russian-trusted-root-ca.pem"), None);
    assert_eq!(bundled_fingerprint(m, "absent", "roots/russian-trusted-root-ca.pem"), None);
    assert_eq!(bundled_fingerprint("not json", "roots", "roots/russian-trusted-root-ca.pem"), None);
}

#[test]
fn update_check_refuses_a_manifest_that_is_not_json() {
    match UpdateCheck::start("{\"version\": ".to_string()) {
        Ok(_) => panic!("not JSON"),
        Err(e) => {
            assert!(matches!(e, CommandError::Json(_)));
            assert!(e.message().starts_with("json: "));
        }
    }
}

#[test]
fn update_sources_are_root_then_sub() {
    let s = update_sources();
    assert_eq!(s.len(), 2);
    assert_eq!(s[0].name, "root");
    assert_eq!(s[0].url, "https://gu-st.ru/content/lending/russian_trusted_root_ca_pem.crt");
    assert_eq!(s[1].name, "sub");
    assert_eq!(s[1].bundle_key, "intermediates");
}

#[test]
fn update_check_up_to_date_when_all_match() {
    let mut c = UpdateCheck::start(MANIFEST.to_string()).ok().expect("JSON");
    assert_eq!(c.next_url(), Some("https://gu-st.ru/content/lending/russian_trusted_root_ca_pem.crt"));
    c.record(Ok("d2:6d:2d:11".to_string()));
    assert_eq!(c.next_url(), Some("https://gu-st.ru/content/lending/russian_trusted_sub_ca_pem.crt"));
    c.record(Ok("".to_string()));
    assert_eq!(c.next_url(), None);
    let r = c.finish();
    assert!(r.up_to_date);
    assert_eq!(r.bundled_version, "2024.1");
    assert_eq!(r.entries.len(), 2);
    assert!(r.entries[0].matches_bundled);
    assert_eq!(r.entries[0].bundled_fingerprint, "D2:6D:2D:11");
    assert_eq!(r.entries[1].bundled_fingerprint, "");
    assert_eq!(r.checked_at.len(), 20);
}

#[test]
fn update_check_failed_download_is_not_up_to_date() {
    let mut c = UpdateCheck::start("[]".to_string()).ok().expect("JSON");
    c.record(Err("HTTP 404".to_string()));
    c.record(Ok("AA".to_string()));
    let r = c.finish();
    assert!(!r.up_to_date);
    assert_eq!(r.bundled_version, "");
    assert_eq!(r.entries[0].error.as_deref(), Some("HTTP 404"));
    assert!(r.entries[0].remote_fingerprint.is_none());
    assert!(!r.entries[0].matches_bundled);
    assert_eq!(r.entries[1].remote_fingerprint.as_deref(), Some("AA"));
    assert!(!r.entries[1].matches_bundled);
    assert_eq!(r.entries[1].name, "sub");
}
