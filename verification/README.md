# gci-app

The core of a certificate inspector for Russian state web sites: it checks
a URL, opens a TLS connection, reports the server's certificate chain, and
tells whether the chain was issued by the Ministry of Digital Development's
certificate authority. It also checks the bundled trust store against the
official downloads.

## Layout

- `src/` — the verified library (Verus).
  - `text.rs` — character-level string helpers with their specifications
    (trimming, searching, case folding, decimal output).
  - `civil.rs` — Unix time to a UTC calendar date and the
    `YYYY-MM-DDTHH:MM:SSZ` text: the breakdown is unique, the text reads
    back to the instant, and texts sort as their instants do.
  - `json.rs` — the calls into `serde_json` that read the request and the
    trust-store manifest.
  - `commands.rs` — URL validation, command errors, fingerprints, the PEM
    fingerprint of a download, the current time.
  - `pem.rs` — extraction of the first CERTIFICATE block of a PEM text.
  - `trust_store.rs` — the fingerprint lookup in the bundled manifest and
    the online update check as a state machine.
  - `x509.rs` — the calls into `x509-parser`, `chrono` and `hex`.
  - `rust_core.rs` — the request's fields, host and port of a URL and the
    URL refusals, the certificate report, the hostname / validity /
    authority checks and their error codes, the page body and its limit,
    the inspection report and its failures, the trust store's certificate
    files.
  - `dto.rs`, `ffi.rs` — the request and result types, and the checks made
    around the native core.
- `tests/` — tests of the library on concrete values.
- `app/` — the parts that do I/O: the TLS connection, HTTP downloads, files,
  writing the JSON answer, the native core.
