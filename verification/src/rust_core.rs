use vstd::prelude::*;
use crate::commands::{sha256, sha256_digest};
use crate::dto::{ErrorEntry, Validation};
use crate::json::{
    bool_member, check_json, json_bool_member, json_error_of, json_str_member, json_u64_member,
    str_member, u64_member,
};
use crate::text::{
    all_digits, digits_value, is_ascii_digit,
    chars_of, contains, contains_seq, decimal_digits, ends_with, find_first, first_occurrence,
    has_char, has_prefix_at, has_suffix, push_char, push_chars, push_decimal, push_str,
    slice_chars, starts_with, string_from_chars, string_of, to_lowercase, unicode_lowercase,
};
use crate::x509::{
    chrono_rfc3339, common_name, hex_encode, hex_lower, issuer_text, not_after, not_before,
    parse_failure, san_count, san_name, serial_text, signature_algorithm, subject_text,
    timestamp_rfc3339, x509_common_name, x509_issuer, x509_not_after, x509_not_before,
    x509_parse_error, x509_san_count, x509_san_name, x509_serial, x509_signature_algorithm,
    x509_subject, SanName, SanNameView,
};

verus! {

// ---------------------------------------------------------------------------
// Host and port of a URL
// ---------------------------------------------------------------------------

/// The rest of `url` after `https://` or `http://`.
pub open spec fn strip_scheme(url: Seq<char>) -> Option<Seq<char>> {
    if starts_with(url, "https://"@) {
        Some(url.skip(8))
    } else if starts_with(url, "http://"@) {
        Some(url.skip(7))
    } else {
        None
    }
}

/// `s` up to its first `c` (all of `s` where there is none).
pub open spec fn before_first(s: Seq<char>, c: char) -> Seq<char>
    decreases s.len(),
{
    if s.len() == 0 {
        s
    } else if s[0] == c {
        Seq::<char>::empty()
    } else {
        seq![s[0]] + before_first(s.drop_first(), c)
    }
}

/// `s` after its first `c`, where there is one.
pub open spec fn after_first(s: Seq<char>, c: char) -> Option<Seq<char>>
    decreases s.len(),
{
    if s.len() == 0 {
        None
    } else if s[0] == c {
        Some(s.drop_first())
    } else {
        after_first(s.drop_first(), c)
    }
}

/// The `host:port` part of a URL.
pub open spec fn authority(rest: Seq<char>) -> Seq<char> {
    before_first(rest, '/')
}

/// The host of an `https://` or `http://` URL: the authority up to its first
/// `:`, where that is not empty.
pub open spec fn url_host(url: Seq<char>) -> Option<Seq<char>> {
    match strip_scheme(url) {
        None => None,
        Some(rest) => {
            let host = before_first(authority(rest), ':');
            if host.len() == 0 {
                None
            } else {
                Some(host)
            }
        },
    }
}

/// `s` without a leading `+`.
pub open spec fn unsigned_digits(s: Seq<char>) -> Seq<char> {
    if s.len() > 0 && s[0] == '+' {
        s.drop_first()
    } else {
        s
    }
}

/// What `s.parse::<u16>()` accepts: an optional `+`, then one or more ASCII
/// digits whose value is at most 65535.
pub open spec fn parse_u16(s: Seq<char>) -> Option<u16> {
    let d = unsigned_digits(s);
    if d.len() > 0 && all_digits(d) && digits_value(d) <= 65535 {
        Some(digits_value(d) as u16)
    } else {
        None
    }
}

/// The port of an `https://` or `http://` URL: what follows the first `:`
/// of the authority, where that parses as a `u16`.
pub open spec fn url_port(url: Seq<char>) -> Option<u16> {
    match strip_scheme(url) {
        None => None,
        Some(rest) => match after_first(authority(rest), ':') {
            Some(p) => parse_u16(p),
            None => None,
        },
    }
}

/// The position of the first `c` in `v[from..to]`, or `to`.
fn first_index(v: &Vec<char>, from: usize, to: usize, c: char) -> (r: usize)
    requires
        from <= to <= v@.len(),
    ensures
        from <= r <= to,
        before_first(v@.subrange(from as int, to as int), c) == v@.subrange(from as int, r as int),
        r < to ==> after_first(v@.subrange(from as int, to as int), c) == Some(
            v@.subrange(r + 1, to as int),
        ),
        r == to ==> after_first(v@.subrange(from as int, to as int), c) is None,
{
    let mut i = from;
    while i < to && v[i] != c
        invariant
            from <= i <= to <= v@.len(),
            before_first(v@.subrange(from as int, to as int), c) == v@.subrange(from as int, i as int)
                + before_first(v@.subrange(i as int, to as int), c),
            after_first(v@.subrange(from as int, to as int), c) == after_first(
                v@.subrange(i as int, to as int),
                c,
            ),
        decreases to - i,
    {
        assert(v@.subrange(i as int, to as int).drop_first() =~= v@.subrange(i + 1, to as int));
        assert(v@.subrange(from as int, i + 1) =~= v@.subrange(from as int, i as int) + seq![v@[i as int]]);
        i += 1;
    }
    if i < to {
        assert(v@.subrange(i as int, to as int).drop_first() =~= v@.subrange(i + 1, to as int));
    }
    assert(v@.subrange(from as int, i as int) + Seq::<char>::empty() =~= v@.subrange(from as int, i as int));
    i
}

/// Where the authority of an `https://` or `http://` URL lies in `v`.
fn authority_bounds(v: &Vec<char>) -> (r: Option<(usize, usize)>)
    ensures
        match r {
            None => strip_scheme(v@) is None,
            Some((a, b)) => {
                &&& a <= b <= v@.len()
                &&& strip_scheme(v@) matches Some(rest)
                &&& authority(rest) == v@.subrange(a as int, b as int)
            },
        },
{
    let https = chars_of("https://");
    let http = chars_of("http://");
    proof {
        reveal_strlit("https://");
        reveal_strlit("http://");
    }
    assert(v@.skip(0) == v@);
    let start = if has_prefix_at(v, 0, &https) {
        8
    } else if has_prefix_at(v, 0, &http) {
        7
    } else {
        return None;
    };
    let end = first_index(v, start, v.len(), '/');
    assert(v@.subrange(start as int, v@.len() as int) == v@.skip(start as int));
    Some((start, end))
}

/// The host of an `https://` or `http://` URL.
pub fn extract_host(url: &str) -> (r: Option<String>)
    ensures
        match r {
            Some(h) => url_host(url@) == Some(h@),
            None => url_host(url@) is None,
        },
{
    let v = chars_of(url);
    let (a, b) = match authority_bounds(&v) {
        Some(ab) => ab,
        None => return None,
    };
    let colon = first_index(&v, a, b, ':');
    if colon == a {
        None
    } else {
        Some(string_from_chars(&v, a, colon))
    }
}

/// `s.parse::<u16>()` for `s = v[from..to]`.
fn parse_port(v: &Vec<char>, from: usize, to: usize) -> (r: Option<u16>)
    requires
        from <= to <= v@.len(),
    ensures
        r == parse_u16(v@.subrange(from as int, to as int)),
{
    let ghost s = v@.subrange(from as int, to as int);
    let mut i = from;
    if i < to && v[i] == '+' {
        i += 1;
    }
    let ghost d = v@.subrange(i as int, to as int);
    assert(d == unsigned_digits(s));
    if i == to {
        return None;
    }
    let start = i;
    // the value of the digits so far, capped at 65536
    let mut acc: u32 = 0;
    assert(v@.subrange(start as int, start as int) =~= Seq::<char>::empty());
    while i < to
        invariant
            from <= start <= i <= to <= v@.len(),
            start < to,
            s == v@.subrange(from as int, to as int),
            d == v@.subrange(start as int, to as int),
            d == unsigned_digits(s),
            forall|k: int| start <= k < i ==> is_ascii_digit(v@[k]),
            acc <= 65536,
            acc == if digits_value(v@.subrange(start as int, i as int)) <= 65535 {
                digits_value(v@.subrange(start as int, i as int))
            } else {
                65536
            },
        decreases to - i,
    {
        let c = v[i];
        if !('0' <= c && c <= '9') {
            assert(!is_ascii_digit(d[i - start]));
            return None;
        }
        let ghost pre = v@.subrange(start as int, i as int);
        assert(v@.subrange(start as int, i + 1).drop_last() =~= pre);
        let digit = (c as u32) - 48;
        if acc <= 65535 {
            acc = acc * 10 + digit;
            if acc > 65535 {
                acc = 65536;
            }
        }
        i += 1;
    }
    assert(v@.subrange(start as int, to as int) == d);
    if acc <= 65535 {
        Some(acc as u16)
    } else {
        None
    }
}

/// The port of an `https://` or `http://` URL, where one is given.
pub fn extract_port(url: &str) -> (r: Option<u16>)
    ensures
        r == url_port(url@),
{
    let v = chars_of(url);
    let (a, b) = match authority_bounds(&v) {
        Some(ab) => ab,
        None => return None,
    };
    let colon = first_index(&v, a, b, ':');
    if colon == b {
        None
    } else {
        parse_port(&v, colon + 1, b)
    }
}


// ---------------------------------------------------------------------------
// What is reported of one certificate
// ---------------------------------------------------------------------------

/// What the core reports of one certificate of the chain.
pub struct CertReport {
    pub subject: String,
    pub issuer: String,
    pub serial_number: String,
    pub valid_from: String,
    pub valid_to: String,
    pub san: Vec<String>,
    pub cn: String,
    pub fingerprint_sha256: String,
    pub signature_algorithm: String,
    /// Why the certificate could not be parsed, if it could not.
    pub parse_error: Option<String>,
}

pub struct CertReportView {
    pub subject: Seq<char>,
    pub issuer: Seq<char>,
    pub serial_number: Seq<char>,
    pub valid_from: Seq<char>,
    pub valid_to: Seq<char>,
    pub san: Seq<Seq<char>>,
    pub cn: Seq<char>,
    pub fingerprint_sha256: Seq<char>,
    pub signature_algorithm: Seq<char>,
    pub parse_error: Option<Seq<char>>,
}

pub open spec fn string_views(v: Seq<String>) -> Seq<Seq<char>> {
    v.map_values(|s: String| s@)
}

impl View for CertReport {
    type V = CertReportView;

    open spec fn view(&self) -> CertReportView {
        CertReportView {
            subject: self.subject@,
            issuer: self.issuer@,
            serial_number: self.serial_number@,
            valid_from: self.valid_from@,
            valid_to: self.valid_to@,
            san: string_views(self.san@),
            cn: self.cn@,
            fingerprint_sha256: self.fingerprint_sha256@,
            signature_algorithm: self.signature_algorithm@,
            parse_error: match self.parse_error {
                Some(e) => Some(e@),
                None => None,
            },
        }
    }
}

/// The text held, or the empty text.
pub open spec fn text_or_empty(t: Option<String>) -> Seq<char> {
    match t {
        Some(s) => s@,
        None => Seq::<char>::empty(),
    }
}

pub open spec fn or_empty(t: Option<Seq<char>>) -> Seq<char> {
    match t {
        Some(s) => s,
        None => Seq::<char>::empty(),
    }
}

/// `a, b, c` for the decimal values of the bytes.
pub open spec fn decimal_list(b: Seq<u8>) -> Seq<char>
    decreases b.len(),
{
    if b.len() == 0 {
        Seq::<char>::empty()
    } else if b.len() == 1 {
        decimal_digits(b[0] as nat)
    } else {
        decimal_list(b.drop_last()) + ", "@ + decimal_digits(b.last() as nat)
    }
}

/// How a subject alternative name is reported: `DNS:<name>`, `IP:a.b.c.d`
/// for a 4-byte address, `IP:[b0, b1, ...]` for another address, and the
/// `Debug` text of any other kind of name.
pub open spec fn san_text(n: SanNameView) -> Seq<char> {
    match n {
        SanNameView::Dns(s) => "DNS:"@ + s,
        SanNameView::Ip(b) => if b.len() == 4 {
            "IP:"@ + decimal_digits(b[0] as nat) + "."@ + decimal_digits(b[1] as nat) + "."@
                + decimal_digits(b[2] as nat) + "."@ + decimal_digits(b[3] as nat)
        } else {
            "IP:["@ + decimal_list(b) + "]"@
        },
        SanNameView::Other(t) => t,
    }
}

/// The reported names of a parsed certificate.
pub open spec fn san_texts(der: Seq<u8>) -> Seq<Seq<char>> {
    Seq::new(x509_san_count(der), |i: int| san_text(x509_san_name(der, i).unwrap()))
}

/// What the core reports of the certificate `der`: its fields where it
/// parses; else empty fields and the parse error.
pub open spec fn cert_report_of(der: Seq<u8>) -> CertReportView {
    match x509_parse_error(der) {
        Some(e) => CertReportView {
            subject: Seq::<char>::empty(),
            issuer: Seq::<char>::empty(),
            serial_number: Seq::<char>::empty(),
            valid_from: Seq::<char>::empty(),
            valid_to: Seq::<char>::empty(),
            san: Seq::<Seq<char>>::empty(),
            cn: Seq::<char>::empty(),
            fingerprint_sha256: Seq::<char>::empty(),
            signature_algorithm: Seq::<char>::empty(),
            parse_error: Some(e),
        },
        None => CertReportView {
            subject: x509_subject(der),
            issuer: x509_issuer(der),
            serial_number: x509_serial(der),
            valid_from: or_empty(chrono_rfc3339(x509_not_before(der))),
            valid_to: or_empty(chrono_rfc3339(x509_not_after(der))),
            san: san_texts(der),
            cn: or_empty(x509_common_name(der)),
            fingerprint_sha256: hex_lower(sha256(der)),
            signature_algorithm: x509_signature_algorithm(der),
            parse_error: None,
        },
    }
}

fn push_u8_list(out: &mut String, b: &Vec<u8>)
    ensures
        final(out)@ == old(out)@ + decimal_list(b@),
{
    let mut i: usize = 0;
    assert(b@.take(0) =~= Seq::<u8>::empty());
    let ghost start = out@;
    while i < b.len()
        invariant
            i <= b@.len(),
            out@ == start + decimal_list(b@.take(i as int)),
        decreases b.len() - i,
    {
        assert(b@.take(i + 1).drop_last() =~= b@.take(i as int));
        if i > 0 {
            push_str(out, ", ");
        }
        push_decimal(out, b[i] as u64);
        assert(out@ =~= start + decimal_list(b@.take(i + 1)));
        i += 1;
    }
    assert(b@.take(b@.len() as int) =~= b@);
}

/// The reported text of a subject alternative name.
pub fn format_san(n: &SanName) -> (r: String)
    ensures
        r@ == san_text(n@),
{
    match n {
        SanName::Dns(s) => {
            let mut out = string_of("DNS:");
            push_str(&mut out, s.as_str());
            out
        },
        SanName::Ip(b) => {
            let mut out = string_of("IP:");
            if b.len() == 4 {
                push_decimal(&mut out, b[0] as u64);
                push_str(&mut out, ".");
                push_decimal(&mut out, b[1] as u64);
                push_str(&mut out, ".");
                push_decimal(&mut out, b[2] as u64);
                push_str(&mut out, ".");
                push_decimal(&mut out, b[3] as u64);
                assert(out@ =~= san_text(n@));
            } else {
                push_str(&mut out, "[");
                push_u8_list(&mut out, b);
                push_str(&mut out, "]");
                proof {
                    reveal_strlit("IP:");
                    reveal_strlit("[");
                    reveal_strlit("IP:[");
                }
                assert(out@ =~= san_text(n@));
            }
            out
        },
        SanName::Other(t) => t.clone(),
    }
}

/// Parses the certificate `der` into what is reported of it.
pub fn parse_cert(der: &[u8]) -> (r: CertReport)
    ensures
        r@ == cert_report_of(der@),
{
    match parse_failure(der) {
        Some(e) => {
            let r = CertReport {
                subject: String::new(),
                issuer: String::new(),
                serial_number: String::new(),
                valid_from: String::new(),
                valid_to: String::new(),
                san: Vec::new(),
                cn: String::new(),
                fingerprint_sha256: String::new(),
                signature_algorithm: String::new(),
                parse_error: Some(e),
            };
            assert(string_views(r.san@) =~= Seq::<Seq<char>>::empty());
            assert(r@ =~= cert_report_of(der@));
            r
        },
        None => {
            let count = san_count(der);
            let mut san: Vec<String> = Vec::new();
            let mut i: usize = 0;
            while i < count
                invariant
                    x509_parse_error(der@) is None,
                    count == x509_san_count(der@),
                    i <= count,
                    string_views(san@) == san_texts(der@).take(i as int),
                decreases count - i,
            {
                let name = san_name(der, i);
                let text = match &name {
                    Some(n) => format_san(n),
                    None => String::new(),
                };
                let ghost before = string_views(san@);
                san.push(text);
                assert(string_views(san@) =~= before.push(text@));
                assert(string_views(san@) =~= san_texts(der@).take(i + 1));
                i += 1;
            }
            assert(san_texts(der@).take(count as int) =~= san_texts(der@));
            let valid_from = match timestamp_rfc3339(not_before(der)) {
                Some(t) => t,
                None => String::new(),
            };
            let valid_to = match timestamp_rfc3339(not_after(der)) {
                Some(t) => t,
                None => String::new(),
            };
            let cn = match common_name(der) {
                Some(c) => c,
                None => String::new(),
            };
            let digest = sha256_digest(der);
            let r = CertReport {
                subject: subject_text(der),
                issuer: issuer_text(der),
                serial_number: serial_text(der),
                valid_from,
                valid_to,
                san,
                cn,
                fingerprint_sha256: hex_encode(digest.as_slice()),
                signature_algorithm: signature_algorithm(der),
                parse_error: None,
            };
            assert(r@ =~= cert_report_of(der@));
            r
        },
    }
}


/// A copy of a list of strings.
fn clone_strings(v: &Vec<String>) -> (r: Vec<String>)
    ensures
        r@ == v@,
{
    let mut r: Vec<String> = Vec::new();
    let mut i: usize = 0;
    while i < v.len()
        invariant
            i <= v@.len(),
            r@ == v@.take(i as int),
        decreases v.len() - i,
    {
        r.push(v[i].clone());
        assert(r@ =~= v@.take(i + 1));
        i += 1;
    }
    assert(v@.take(v@.len() as int) =~= v@);
    r
}

fn clone_opt(o: &Option<String>) -> (r: Option<String>)
    ensures
        r == *o,
{
    match o {
        Some(s) => Some(s.clone()),
        None => None,
    }
}

/// A copy of a certificate report.
pub fn copy_report(c: &CertReport) -> (r: CertReport)
    ensures
        r@ == c@,
{
    CertReport {
        subject: c.subject.clone(),
        issuer: c.issuer.clone(),
        serial_number: c.serial_number.clone(),
        valid_from: c.valid_from.clone(),
        valid_to: c.valid_to.clone(),
        san: clone_strings(&c.san),
        cn: c.cn.clone(),
        fingerprint_sha256: c.fingerprint_sha256.clone(),
        signature_algorithm: c.signature_algorithm.clone(),
        parse_error: clone_opt(&c.parse_error),
    }
}

// ---------------------------------------------------------------------------
// The checks made on the presented chain
// ---------------------------------------------------------------------------

/// A subject alternative name, lowercased and without a `dns:` prefix.
pub open spec fn san_pattern(san: Seq<char>) -> Seq<char> {
    let l = unicode_lowercase(san);
    if starts_with(l, "dns:"@) {
        l.skip(4)
    } else {
        l
    }
}

/// The (lowercased) host is covered by the name: equal to it, or, for a
/// `*.suffix` name, one non-empty label without a dot followed by `.suffix`
/// (the wildcard stands for exactly the left-most label).
pub open spec fn san_matches(san: Seq<char>, host_lower: Seq<char>) -> bool {
    let p = san_pattern(san);
    if starts_with(p, "*."@) {
        let dot_suffix = p.skip(1);
        &&& ends_with(host_lower, dot_suffix)
        &&& host_lower.len() > dot_suffix.len()
        &&& !host_lower.take(host_lower.len() - dot_suffix.len()).contains('.')
    } else {
        p == host_lower
    }
}

/// Whether the name `san` covers the host (already lowercased).
pub fn san_matches_host(san: &str, host_lower: &Vec<char>) -> (r: bool)
    ensures
        r == san_matches(san@, host_lower@),
{
    let l = chars_of(to_lowercase(san).as_str());
    let dns = chars_of("dns:");
    proof {
        reveal_strlit("dns:");
        reveal_strlit("*.");
    }
    assert(l@.skip(0) == l@);
    let start: usize = if has_prefix_at(&l, 0, &dns) {
        4
    } else {
        0
    };
    let ghost p = san_pattern(san@);
    assert(p == l@.skip(start as int));
    let star = chars_of("*.");
    if has_prefix_at(&l, start, &star) {
        assert(p.skip(1) =~= l@.skip(start + 1));
        let suffix = slice_chars(&l, start + 1, l.len());
        assert(suffix@ =~= p.skip(1));
        if !has_suffix(host_lower, &suffix) {
            return false;
        }
        let cut = host_lower.len() - suffix.len();
        if cut == 0 {
            return false;
        }
        assert(host_lower@.subrange(0, cut as int) =~= host_lower@.take(cut as int));
        !has_char(host_lower, 0, cut, '.')
    } else {
        let rest = slice_chars(&l, start, l.len());
        assert(rest@ =~= p);
        crate::text::chars_eq(&rest, host_lower)
    }
}

/// Whether some name of the list covers the host (`hostname_ok`).
pub open spec fn some_san_matches(sans: Seq<Seq<char>>, host: Seq<char>) -> bool {
    exists|j: int| 0 <= j < sans.len() && san_matches(#[trigger] sans[j], unicode_lowercase(host))
}

pub open spec fn mincifry_markers() -> Seq<Seq<char>> {
    seq!["russian trusted"@, "ministry of digital development"@, "минцифры"@, "минцифра"@]
}

/// The lowercased text holds one of the markers of the Ministry of Digital
/// Development's certificate authority.
pub open spec fn has_mincifry_marker(t: Seq<char>) -> bool {
    exists|k: int|
        0 <= k < mincifry_markers().len() && contains_seq(unicode_lowercase(t), #[trigger] mincifry_markers()[k])
}

/// Where the markers are looked for in the chain: the issuer of the leaf
/// (position 0) and the subject of every other certificate.
pub open spec fn marker_at(chain: Seq<CertReportView>, k: int) -> bool {
    if k == 0 {
        has_mincifry_marker(chain[0].issuer)
    } else {
        has_mincifry_marker(chain[k].subject)
    }
}

fn marker_list() -> (r: Vec<Vec<char>>)
    ensures
        r@.len() == mincifry_markers().len(),
        forall|k: int| 0 <= k < r@.len() ==> (#[trigger] r@[k])@ == mincifry_markers()[k],
{
    let mut r: Vec<Vec<char>> = Vec::new();
    r.push(chars_of("russian trusted"));
    r.push(chars_of("ministry of digital development"));
    r.push(chars_of("минцифры"));
    r.push(chars_of("минцифра"));
    r
}

/// Whether the text names a marker of the Ministry's authority.
pub fn names_mincifry(text: &str) -> (r: bool)
    ensures
        r == has_mincifry_marker(text@),
{
    let lower = chars_of(to_lowercase(text).as_str());
    let markers = marker_list();
    let mut found = false;
    let mut k: usize = 0;
    while k < markers.len()
        invariant
            markers@.len() == mincifry_markers().len(),
            forall|m: int| 0 <= m < markers@.len() ==> (#[trigger] markers@[m])@ == mincifry_markers()[m],
            lower@ == unicode_lowercase(text@),
            k <= markers@.len(),
            found == exists|m: int| 0 <= m < k && contains_seq(lower@, #[trigger] mincifry_markers()[m]),
        decreases markers.len() - k,
    {
        let m = &markers[k];
        assert(m@ == mincifry_markers()[k as int]);
        if contains(&lower, m) {
            found = true;
        }
        k += 1;
    }
    found
}

/// The instant `(secs, nanos)` lies before or at `now`.
pub open spec fn at_or_before(t: (i64, u32), now: (i64, u32)) -> bool {
    t.0 < now.0 || (t.0 == now.0 && t.1 <= now.1)
}

/// `now` lies within the validity period `[valid_from, valid_to]` of a
/// certificate; a bound whose text does not parse as RFC 3339 does not
/// limit the period.
pub open spec fn validity_ok(valid_from: Seq<char>, valid_to: Seq<char>, now: (i64, u32)) -> bool {
    &&& match crate::x509::chrono_parse_rfc3339(valid_from) {
        Some(t) => at_or_before(t, now),
        None => true,
    }
    &&& match crate::x509::chrono_parse_rfc3339(valid_to) {
        Some(t) => at_or_before(now, t),
        None => true,
    }
}

// ---------------------------------------------------------------------------
// The report of an inspection
// ---------------------------------------------------------------------------

/// The negotiated protocol version, where it is TLS 1.2 or 1.3.
#[derive(PartialEq, Eq, Structural, Clone, Copy, Debug)]
pub enum TlsProtocol {
    Tls12,
    Tls13,
}

pub open spec fn tls_version_text(p: Option<TlsProtocol>) -> Seq<char> {
    match p {
        Some(TlsProtocol::Tls12) => "TLS 1.2"@,
        Some(TlsProtocol::Tls13) => "TLS 1.3"@,
        None => "unknown"@,
    }
}

/// What the inspection core answers, in the shape of the JSON contract.
pub struct CoreReport {
    pub request_id: String,
    pub input_url: String,
    pub resolved_host: String,
    pub tls_version: String,
    pub tls_cipher: String,
    pub certificate: Option<CertReport>,
    pub chain: Vec<CertReport>,
    pub validation: Validation,
    pub is_mintsifry_ca: bool,
    pub html: String,
    pub errors: Vec<ErrorEntry>,
}

/// The text of a UTF-8 byte string, invalid sequences replaced by U+FFFD
/// (what `String::from_utf8_lossy` returns).
pub uninterp spec fn utf8_lossy(b: Seq<u8>) -> Seq<char>;

/// `String::from_utf8_lossy(b)`. The contract names the text and states
/// what the documentation gives: valid UTF-8 is decoded as it is.
#[verifier::external_body]
fn from_utf8_lossy(b: &[u8]) -> (r: String)
    ensures
        r@ == utf8_lossy(b@),
        vstd::utf8::valid_utf8(b@) ==> r@ == vstd::utf8::decode_utf8(b@),
{
    String::from_utf8_lossy(b).to_string()
}

/// The body of an HTTP response text: what follows the first blank line
/// (`\r\n\r\n`, else `\n\n`), or all of it where there is none.
pub open spec fn html_body(text: Seq<char>) -> Seq<char> {
    match first_occurrence(text, "\r\n\r\n"@) {
        Some(p) => text.skip(p + 4),
        None => match first_occurrence(text, "\n\n"@) {
            Some(p) => text.skip(p + 2),
            None => text,
        },
    }
}

/// The page body of an HTTP response.
pub fn extract_html_body(response: &[u8]) -> (r: String)
    ensures
        r@ == html_body(utf8_lossy(response@)),
{
    let text = chars_of(from_utf8_lossy(response).as_str());
    let n = text.len();
    let crlf = chars_of("\r\n\r\n");
    proof {
        reveal_strlit("\r\n\r\n");
        reveal_strlit("\n\n");
    }
    match find_first(&text, &crlf) {
        Some(pos) => {
            assert(crlf@.len() == 4);
            assert(pos + 4 <= text@.len());
            string_from_chars(&text, pos + 4, n)
        },
        None => {
            let lf = chars_of("\n\n");
            match find_first(&text, &lf) {
                Some(pos) => {
                    assert(lf@.len() == 2);
                    string_from_chars(&text, pos + 2, n)
                },
                None => string_from_chars(&text, 0, n),
            }
        },
    }
}


/// The validation flags of a presented chain, for the given host, at `now`.
pub open spec fn validation_of(chain: Seq<CertReportView>, host: Seq<char>, now: (i64, u32)) -> (
    bool,
    bool,
    bool,
    bool,
) {
    let hostname_ok = chain.len() == 0 || some_san_matches(chain[0].san, host);
    let chain_ok = chain.len() > 0;
    let expired_ok = chain.len() == 0 || validity_ok(chain[0].valid_from, chain[0].valid_to, now);
    let mincifry = exists|i: int| 0 <= i < chain.len() && #[trigger] marker_at(chain, i);
    (hostname_ok, chain_ok, expired_ok, mincifry)
}

pub open spec fn report_views(v: Seq<CertReport>) -> Seq<CertReportView> {
    v.map_values(|c: CertReport| c@)
}

pub open spec fn der_views(v: Seq<Vec<u8>>) -> Seq<Seq<u8>> {
    v.map_values(|d: Vec<u8>| d@)
}

/// Whether some name of the list covers the host.
fn any_san_matches(sans: &Vec<String>, host: &str) -> (r: bool)
    ensures
        r == some_san_matches(string_views(sans@), host@),
{
    let host_lower = chars_of(to_lowercase(host).as_str());
    let mut j: usize = 0;
    while j < sans.len()
        invariant
            host_lower@ == unicode_lowercase(host@),
            j <= sans@.len(),
            forall|k: int| 0 <= k < j ==> !san_matches(#[trigger] string_views(sans@)[k], host_lower@),
        decreases sans.len() - j,
    {
        if san_matches_host(sans[j].as_str(), &host_lower) {
            assert(san_matches(string_views(sans@)[j as int], unicode_lowercase(host@)));
            return true;
        }
        j += 1;
    }
    false
}

/// Whether `now` lies within the validity period of the leaf.
fn within_validity(valid_from: &str, valid_to: &str, now: (i64, u32)) -> (r: bool)
    ensures
        r == validity_ok(valid_from@, valid_to@, now),
{
    let from_ok = match crate::x509::parse_rfc3339(valid_from) {
        Some((secs, nanos)) => secs < now.0 || (secs == now.0 && nanos <= now.1),
        None => true,
    };
    let to_ok = match crate::x509::parse_rfc3339(valid_to) {
        Some((secs, nanos)) => now.0 < secs || (now.0 == secs && now.1 <= nanos),
        None => true,
    };
    from_ok && to_ok
}

/// The bytes of the response that are kept: at most `max`.
pub open spec fn kept_bytes(response: Seq<u8>, max: nat) -> Seq<u8> {
    if response.len() > max {
        response.take(max as int)
    } else {
        response
    }
}

/// The status code of an HTTP response text: the three digits after the
/// first space of a text that starts with `HTTP/`.
pub open spec fn http_status(text: Seq<char>) -> Option<nat> {
    if starts_with(text, "HTTP/"@) {
        match first_occurrence(text, " "@) {
            Some(p) => if p + 4 <= text.len() && all_digits(text.subrange(p + 1, p + 4)) {
                Some(digits_value(text.subrange(p + 1, p + 4)))
            } else {
                None
            },
            None => None,
        }
    } else {
        None
    }
}

/// The first `n` bytes of `b`.
fn take_bytes(b: &[u8], n: usize) -> (r: Vec<u8>)
    requires
        n <= b@.len(),
    ensures
        r@ == b@.take(n as int),
{
    let mut r: Vec<u8> = Vec::new();
    let mut i: usize = 0;
    while i < n
        invariant
            i <= n <= b@.len(),
            r@ == b@.take(i as int),
        decreases n - i,
    {
        r.push(b[i]);
        assert(r@ =~= b@.take(i + 1));
        i += 1;
    }
    r
}

/// The status code of a response text.
fn status_of(text: &Vec<char>) -> (r: Option<u64>)
    ensures
        match r {
            Some(c) => http_status(text@) == Some(c as nat) && c < 1000,
            None => http_status(text@) is None,
        },
{
    let prefix = chars_of("HTTP/");
    let space = chars_of(" ");
    proof {
        reveal_strlit("HTTP/");
        reveal_strlit(" ");
    }
    assert(text@.skip(0) == text@);
    if !has_prefix_at(text, 0, &prefix) {
        return None;
    }
    let p = match find_first(text, &space) {
        Some(p) => p,
        None => return None,
    };
    if p > text.len() || text.len() - p < 4 {
        return None;
    }
    let a = text[p + 1];
    let b = text[p + 2];
    let c = text[p + 3];
    let ghost d = text@.subrange(p + 1, p + 4);
    if !('0' <= a && a <= '9' && '0' <= b && b <= '9' && '0' <= c && c <= '9') {
        assert(!is_ascii_digit(d[0]) || !is_ascii_digit(d[1]) || !is_ascii_digit(d[2]));
        return None;
    }
    assert(all_digits(d)) by {
        assert forall|i: int| 0 <= i < d.len() implies is_ascii_digit(#[trigger] d[i]) by {
            if i == 0 {} else if i == 1 {} else {}
        }
    }
    let v = ((a as u64) - 48) * 100 + ((b as u64) - 48) * 10 + ((c as u64) - 48);
    assert(d.drop_last().drop_last().drop_last() =~= Seq::<char>::empty());
    assert(d.drop_last().drop_last().last() == a);
    assert(d.drop_last().last() == b);
    assert(d.last() == c);
    assert(digits_value(d.drop_last().drop_last()) == digits_value(d.drop_last().drop_last().drop_last()) * 10 + ((a as nat) - 48) as nat);
    assert(digits_value(d.drop_last()) == digits_value(d.drop_last().drop_last()) * 10 + ((b as nat) - 48) as nat);
    assert(digits_value(d) == digits_value(d.drop_last()) * 10 + ((c as nat) - 48) as nat);
    Some(v)
}

/// One error of a report, as (code, message).
pub open spec fn error_views(v: Seq<ErrorEntry>) -> Seq<(Seq<char>, Seq<char>)> {
    v.map_values(|e: ErrorEntry| (e.code@, e.message@))
}

/// `[x]` where `c` holds, else nothing.
pub open spec fn when(c: bool, x: (Seq<char>, Seq<char>)) -> Seq<(Seq<char>, Seq<char>)> {
    if c {
        seq![x]
    } else {
        Seq::empty()
    }
}

/// The errors a completed connection is reported with, in this order: no
/// certificate presented, a leaf that does not cover the host, a leaf out of
/// its validity period, an HTTP status of 400 or above, a page body cut to
/// `max` bytes.
pub open spec fn connection_errors(
    chain: Seq<CertReportView>,
    host: Seq<char>,
    now: (i64, u32),
    status: Option<nat>,
    truncated: bool,
    max: nat,
) -> Seq<(Seq<char>, Seq<char>)> {
    let v = validation_of(chain, host, now);
    when(chain.len() == 0, ("NO_PEER_CERT"@, "server presented no certificate"@))
        + when(!v.0, ("HOSTNAME_MISMATCH"@, "certificate does not cover the host"@))
        + when(!v.2, ("EXPIRED"@, "certificate is outside its validity period"@))
        + when(
        status matches Some(c) && c >= 400,
        ("HTTP_STATUS"@, "HTTP "@ + decimal_digits(status.unwrap())),
    ) + when(truncated, ("HTML_TRUNCATED"@, "page body cut to "@ + decimal_digits(max) + " bytes"@))
}

fn push_error(errors: &mut Vec<ErrorEntry>, code: &str, message: String)
    ensures
        error_views(final(errors)@) == error_views(old(errors)@) + seq![(code@, message@)],
{
    let ghost before = errors@;
    errors.push(ErrorEntry { code: string_of(code), message });
    assert(error_views(errors@) =~= error_views(before) + seq![(code@, message@)]);
}

/// The page body reported for a response: the body of the kept bytes, where
/// the page was asked for.
pub open spec fn page_html(response: Seq<u8>, load_html: bool, max: nat) -> Seq<char> {
    if load_html {
        html_body(utf8_lossy(kept_bytes(response, max)))
    } else {
        Seq::<char>::empty()
    }
}

/// The HTTP status of the kept response, where the page was asked for.
pub open spec fn page_status(response: Seq<u8>, load_html: bool, max: nat) -> Option<nat> {
    if load_html {
        http_status(utf8_lossy(kept_bytes(response, max)))
    } else {
        None
    }
}

/// The report of a completed connection to `host`: the reports of the
/// presented certificates (leaf first), the checks made on them at `now`
/// (Unix seconds, nanoseconds), the page body where it was asked for (of at
/// most `max_html_bytes` bytes of the response), and one error for each
/// check that failed.
pub fn connection_report_at(
    request_id: String,
    url: String,
    host: String,
    protocol: Option<TlsProtocol>,
    cipher: Option<String>,
    peer_certs: &Vec<Vec<u8>>,
    load_html: bool,
    max_html_bytes: usize,
    response: &[u8],
    now: (i64, u32),
) -> (r: CoreReport)
    ensures
        r.request_id == request_id,
        r.input_url == url,
        r.resolved_host == host,
        r.tls_version@ == tls_version_text(protocol),
        r.tls_cipher@ == match cipher {
            Some(c) => c@,
            None => Seq::<char>::empty(),
        },
        report_views(r.chain@) == der_views(peer_certs@).map_values(|d: Seq<u8>| cert_report_of(d)),
        match r.certificate {
            Some(c) => peer_certs@.len() > 0 && c@ == cert_report_of(peer_certs@[0]@),
            None => peer_certs@.len() == 0,
        },
        (r.validation.hostname_ok, r.validation.chain_ok, r.validation.expired_ok, r.validation.mincifry_ca_ok)
            == validation_of(report_views(r.chain@), host@, now),
        r.is_mintsifry_ca == r.validation.mincifry_ca_ok,
        r.html@ == page_html(response@, load_html, max_html_bytes as nat),
        error_views(r.errors@) == connection_errors(
            report_views(r.chain@),
            host@,
            now,
            page_status(response@, load_html, max_html_bytes as nat),
            load_html && response@.len() > max_html_bytes,
            max_html_bytes as nat,
        ),
{
    let mut chain: Vec<CertReport> = Vec::new();
    let mut mincifry = false;
    let mut i: usize = 0;
    let ghost want = der_views(peer_certs@).map_values(|d: Seq<u8>| cert_report_of(d));
    while i < peer_certs.len()
        invariant
            i <= peer_certs@.len(),
            want == der_views(peer_certs@).map_values(|d: Seq<u8>| cert_report_of(d)),
            report_views(chain@) == want.take(i as int),
            mincifry == exists|k: int| 0 <= k < i && #[trigger] marker_at(want, k),
        decreases peer_certs.len() - i,
    {
        let report = parse_cert(peer_certs[i].as_slice());
        assert(report@ == want[i as int]);
        let marked = if i == 0 {
            names_mincifry(report.issuer.as_str())
        } else {
            names_mincifry(report.subject.as_str())
        };
        assert(marked == marker_at(want, i as int));
        if marked {
            mincifry = true;
        }
        let ghost before = report_views(chain@);
        chain.push(report);
        assert(report_views(chain@) =~= before.push(want[i as int]));
        assert(report_views(chain@) =~= want.take(i + 1));
        i += 1;
    }
    assert(want.take(want.len() as int) =~= want);
    let ghost views = report_views(chain@);
    let (certificate, hostname_ok, expired_ok) = if chain.len() > 0 {
        let leaf = &chain[0];
        assert(views[0] == leaf@);
        let hostname_ok = any_san_matches(&leaf.san, host.as_str());
        let expired_ok = within_validity(leaf.valid_from.as_str(), leaf.valid_to.as_str(), now);
        (Some(copy_report(leaf)), hostname_ok, expired_ok)
    } else {
        (None, true, true)
    };
    let chain_ok = chain.len() > 0;
    let tls_version = match protocol {
        Some(TlsProtocol::Tls12) => string_of("TLS 1.2"),
        Some(TlsProtocol::Tls13) => string_of("TLS 1.3"),
        None => string_of("unknown"),
    };
    let tls_cipher = match cipher {
        Some(c) => c,
        None => String::new(),
    };
    let truncated = load_html && response.len() > max_html_bytes;
    let (html, status) = if load_html {
        let kept = if response.len() > max_html_bytes {
            take_bytes(response, max_html_bytes)
        } else {
            take_bytes(response, response.len())
        };
        assert(response@.take(response@.len() as int) =~= response@);
        assert(kept@ == kept_bytes(response@, max_html_bytes as nat));
        let text = chars_of(from_utf8_lossy(kept.as_slice()).as_str());
        (extract_html_body(kept.as_slice()), status_of(&text))
    } else {
        (String::new(), None)
    };
    let ghost v = validation_of(views, host@, now);
    let mut errors: Vec<ErrorEntry> = Vec::new();
    let ghost e0 = error_views(errors@);
    assert(e0 =~= Seq::<(Seq<char>, Seq<char>)>::empty());
    if !chain_ok {
        push_error(&mut errors, "NO_PEER_CERT", string_of("server presented no certificate"));
    }
    let ghost e1 = error_views(errors@);
    assert(e1 =~= when(views.len() == 0, ("NO_PEER_CERT"@, "server presented no certificate"@)));
    if !hostname_ok {
        push_error(&mut errors, "HOSTNAME_MISMATCH", string_of("certificate does not cover the host"));
    }
    let ghost e2 = error_views(errors@);
    assert(e2 =~= e1 + when(!v.0, ("HOSTNAME_MISMATCH"@, "certificate does not cover the host"@)));
    if !expired_ok {
        push_error(&mut errors, "EXPIRED", string_of("certificate is outside its validity period"));
    }
    let ghost e3 = error_views(errors@);
    assert(e3 =~= e2 + when(!v.2, ("EXPIRED"@, "certificate is outside its validity period"@)));
    let ghost st = page_status(response@, load_html, max_html_bytes as nat);
    match status {
        Some(c) => {
            if c >= 400 {
                let mut m = string_of("HTTP ");
                push_decimal(&mut m, c);
                push_error(&mut errors, "HTTP_STATUS", m);
            }
        },
        None => {},
    }
    let ghost e4 = error_views(errors@);
    assert(e4 =~= e3 + when(
        st matches Some(c) && c >= 400,
        ("HTTP_STATUS"@, "HTTP "@ + decimal_digits(st.unwrap())),
    ));
    if truncated {
        let mut m = string_of("page body cut to ");
        push_decimal(&mut m, max_html_bytes as u64);
        push_str(&mut m, " bytes");
        push_error(&mut errors, "HTML_TRUNCATED", m);
    }
    let ghost e5 = error_views(errors@);
    assert(e5 =~= e4 + when(
        truncated,
        ("HTML_TRUNCATED"@, "page body cut to "@ + decimal_digits(max_html_bytes as nat) + " bytes"@),
    ));
    CoreReport {
        request_id,
        input_url: url,
        resolved_host: host,
        tls_version,
        tls_cipher,
        certificate,
        chain,
        validation: Validation { hostname_ok, chain_ok, expired_ok, mincifry_ca_ok: mincifry },
        is_mintsifry_ca: mincifry,
        html,
        errors,
    }
}

/// The instant of a clock reading as (Unix seconds, nanoseconds); a clock
/// set before the epoch counts as the epoch itself.
pub open spec fn clock_instant(reading: Option<(u64, u32)>) -> (i64, u32) {
    match reading {
        Some((s, n)) => (s as i64, n),
        None => (0, 0),
    }
}

/// The instant of a clock reading.
pub fn instant_of_clock(reading: Option<(u64, u32)>) -> (r: (i64, u32))
    ensures
        r == clock_instant(reading),
{
    match reading {
        Some((s, n)) => (s as i64, n),
        None => (0, 0),
    }
}

/// `connection_report_at` at the current time (the epoch where the clock is
/// set before it).
pub fn connection_report(
    request_id: String,
    url: String,
    host: String,
    protocol: Option<TlsProtocol>,
    cipher: Option<String>,
    peer_certs: &Vec<Vec<u8>>,
    load_html: bool,
    max_html_bytes: usize,
    response: &[u8],
) -> (r: CoreReport)
    ensures
        exists|reading: Option<(u64, u32)>|
            #![trigger clock_instant(reading)]
            ({
                let now = clock_instant(reading);
                (r.validation.hostname_ok, r.validation.chain_ok, r.validation.expired_ok, r.validation.mincifry_ca_ok)
                == validation_of(report_views(r.chain@), host@, now) && error_views(r.errors@)
                == connection_errors(
                report_views(r.chain@),
                host@,
                now,
                page_status(response@, load_html, max_html_bytes as nat),
                load_html && response@.len() > max_html_bytes,
                max_html_bytes as nat,
            )
            }),
        r.request_id == request_id,
        r.input_url == url,
        r.resolved_host == host,
        r.tls_version@ == tls_version_text(protocol),
        r.tls_cipher@ == match cipher {
            Some(c) => c@,
            None => Seq::<char>::empty(),
        },
        report_views(r.chain@) == der_views(peer_certs@).map_values(|d: Seq<u8>| cert_report_of(d)),
        match r.certificate {
            Some(c) => peer_certs@.len() > 0 && c@ == cert_report_of(peer_certs@[0]@),
            None => peer_certs@.len() == 0,
        },
        r.is_mintsifry_ca == r.validation.mincifry_ca_ok,
        r.html@ == page_html(response@, load_html, max_html_bytes as nat),
{
    let now = instant_of_clock(crate::commands::unix_time());
    connection_report_at(request_id, url, host, protocol, cipher, peer_certs, load_html, max_html_bytes, response, now)
}


// ---------------------------------------------------------------------------
// The request, the connection plan and the failures
// ---------------------------------------------------------------------------

/// The fields of an inspection request, with their defaults applied.
pub struct InspectParams {
    pub url: String,
    pub request_id: String,
    pub trust_store_path: String,
    pub load_html: bool,
    pub timeout_ms: u64,
    pub max_html_bytes: usize,
}

impl InspectParams {
    /// Applies the defaults to the fields found in the request (a field is
    /// `None` where it is absent or of another JSON type): empty texts, HTML
    /// loaded, a 15 000 ms timeout, a 1 MiB limit on the page body.
    pub fn from_fields(
        url: Option<String>,
        request_id: Option<String>,
        trust_store_path: Option<String>,
        load_html: Option<bool>,
        timeout_ms: Option<u64>,
        max_html_bytes: Option<u64>,
    ) -> (r: Self)
        ensures
            r.url@ == text_or_empty(url),
            r.request_id@ == text_or_empty(request_id),
            r.trust_store_path@ == text_or_empty(trust_store_path),
            r.load_html == match load_html {
                Some(b) => b,
                None => true,
            },
            r.timeout_ms == match timeout_ms {
                Some(t) => t,
                None => 15000,
            },
            r.max_html_bytes == match max_html_bytes {
                Some(m) => m as usize,
                None => 1_048_576usize,
            },
    {
        InspectParams {
            url: match url {
                Some(s) => s,
                None => String::new(),
            },
            request_id: match request_id {
                Some(s) => s,
                None => String::new(),
            },
            trust_store_path: match trust_store_path {
                Some(s) => s,
                None => String::new(),
            },
            load_html: match load_html {
                Some(b) => b,
                None => true,
            },
            timeout_ms: match timeout_ms {
                Some(t) => t,
                None => 15000,
            },
            max_html_bytes: match max_html_bytes {
                Some(m) => m as usize,
                None => 1_048_576,
            },
        }
    }
}

/// The fields of a request text, with the defaults applied, where the text
/// is JSON.
pub open spec fn request_params_of(text: Seq<char>, p: InspectParams) -> bool {
    &&& p.url@ == or_empty(json_str_member(text, "url"@))
    &&& p.request_id@ == or_empty(json_str_member(text, "requestId"@))
    &&& p.trust_store_path@ == or_empty(json_str_member(text, "trustStorePath"@))
    &&& p.load_html == match json_bool_member(text, "loadHtml"@) {
        Some(b) => b,
        None => true,
    }
    &&& p.timeout_ms == match json_u64_member(text, "timeoutMs"@) {
        Some(t) => t,
        None => 15000,
    }
    &&& p.max_html_bytes == match json_u64_member(text, "maxHtmlBytes"@) {
        Some(m) => m as usize,
        None => 1_048_576usize,
    }
}

/// Reads an inspection request: its fields with the defaults applied, or,
/// where the text is not JSON, the `BAD_JSON` report (with an empty id and
/// URL) that carries the parser's message.
pub fn inspect_params(request_json: &str) -> (r: Result<InspectParams, CoreReport>)
    ensures
        match json_error_of(request_json@) {
            Some(e) => r matches Err(report) && error_report_is(
                report,
                Seq::<char>::empty(),
                Seq::<char>::empty(),
                "BAD_JSON"@,
                e,
            ),
            None => r matches Ok(p) && request_params_of(request_json@, p),
        },
{
    match check_json(request_json) {
        Err((_, e)) => Err(failure_report("", "", CoreFailure::BadJson(e))),
        Ok(()) => {
            let p = InspectParams::from_fields(
                str_member(request_json, "url"),
                str_member(request_json, "requestId"),
                str_member(request_json, "trustStorePath"),
                bool_member(request_json, "loadHtml"),
                u64_member(request_json, "timeoutMs"),
                u64_member(request_json, "maxHtmlBytes"),
            );
            Ok(p)
        },
    }
}

pub open spec fn error_report_is(
    r: CoreReport,
    request_id: Seq<char>,
    url: Seq<char>,
    code: Seq<char>,
    message: Seq<char>,
) -> bool {
    &&& r.request_id@ == request_id
    &&& r.input_url@ == url
    &&& r.resolved_host@.len() == 0
    &&& r.tls_version@.len() == 0
    &&& r.tls_cipher@.len() == 0
    &&& r.certificate is None
    &&& r.chain@.len() == 0
    &&& !r.validation.hostname_ok && !r.validation.chain_ok && !r.validation.expired_ok
        && !r.validation.mincifry_ca_ok
    &&& !r.is_mintsifry_ca
    &&& r.html@.len() == 0
    &&& r.errors@.len() == 1
    &&& r.errors@[0].code@ == code
    &&& r.errors@[0].message@ == message
}

/// The report of an inspection that failed with `code`.
pub fn error_response(request_id: &str, url: &str, code: &str, message: &str) -> (r: CoreReport)
    ensures
        error_report_is(r, request_id@, url@, code@, message@),
{
    let mut errors: Vec<ErrorEntry> = Vec::new();
    errors.push(ErrorEntry { code: string_of(code), message: string_of(message) });
    CoreReport {
        request_id: string_of(request_id),
        input_url: string_of(url),
        resolved_host: String::new(),
        tls_version: String::new(),
        tls_cipher: String::new(),
        certificate: None,
        chain: Vec::new(),
        validation: Validation {
            hostname_ok: false,
            chain_ok: false,
            expired_ok: false,
            mincifry_ca_ok: false,
        },
        is_mintsifry_ca: false,
        html: String::new(),
        errors,
    }
}

/// A port is written after the host: the authority holds a `:`.
pub open spec fn port_given(url: Seq<char>) -> bool {
    match strip_scheme(url) {
        Some(rest) => after_first(authority(rest), ':') is Some,
        None => false,
    }
}

/// Why a request is refused before any connection, as (code, message): its
/// URL is empty; its trust-store path is empty; the URL does not start with
/// `https://`; it names no host; the port written after the host is not a
/// number from 0 to 65535.
pub open spec fn request_problem(url: Seq<char>, trust_store_path: Seq<char>) -> Option<
    (Seq<char>, Seq<char>),
> {
    if url.len() == 0 {
        Some(("EMPTY_URL"@, "url is empty"@))
    } else if trust_store_path.len() == 0 {
        Some(("EMPTY_TRUST"@, "trust store path is empty"@))
    } else if !starts_with(url, "https://"@) {
        Some(("URL_PARSE"@, "scheme is not https"@))
    } else if url_host(url) is None {
        Some(("URL_PARSE"@, "cannot extract host from URL"@))
    } else if port_given(url) && url_port(url) is None {
        Some(("URL_PARSE"@, "invalid port in URL"@))
    } else {
        None
    }
}

/// Whether the URL writes a port after its host.
fn has_port_text(url: &str) -> (r: bool)
    ensures
        r == port_given(url@),
{
    let v = chars_of(url);
    match authority_bounds(&v) {
        None => false,
        Some((a, b)) => first_index(&v, a, b, ':') < b,
    }
}

/// Where to connect for a request: its host and port (443 where none is
/// written), or the report of a request that is refused.
pub fn plan_connection(p: &InspectParams) -> (r: Result<(String, u16), CoreReport>)
    ensures
        match r {
            Ok((host, port)) => request_problem(p.url@, p.trust_store_path@) is None && url_host(p.url@) == Some(host@)
                && port == match url_port(p.url@) {
                Some(q) => q,
                None => 443u16,
            },
            Err(report) => request_problem(p.url@, p.trust_store_path@) matches Some((code, message)) && error_report_is(
                report,
                p.request_id@,
                p.url@,
                code,
                message,
            ),
        },
{
    let id = p.request_id.as_str();
    let url = p.url.as_str();
    let v = chars_of(url);
    if v.len() == 0 {
        return Err(error_response(id, url, "EMPTY_URL", "url is empty"));
    }
    let trust = chars_of(p.trust_store_path.as_str());
    if trust.len() == 0 {
        return Err(error_response(id, url, "EMPTY_TRUST", "trust store path is empty"));
    }
    let https = chars_of("https://");
    proof {
        reveal_strlit("https://");
    }
    assert(v@.skip(0) == v@);
    if !has_prefix_at(&v, 0, &https) {
        return Err(error_response(id, url, "URL_PARSE", "scheme is not https"));
    }
    let host = match extract_host(url) {
        Some(h) => h,
        None => {
            return Err(error_response(id, url, "URL_PARSE", "cannot extract host from URL"));
        },
    };
    let port = match extract_port(url) {
        Some(q) => q,
        None => {
            if has_port_text(url) {
                return Err(error_response(id, url, "URL_PARSE", "invalid port in URL"));
            }
            443
        },
    };
    Ok((host, port))
}

/// `host:port`.
pub fn connect_address(host: &str, port: u16) -> (r: String)
    ensures
        r@ == host@ + ":"@ + decimal_digits(port as nat),
{
    let mut out = string_of(host);
    push_str(&mut out, ":");
    push_decimal(&mut out, port as u64);
    out
}

/// The HTTP request sent once the TLS session is set up.
pub fn http_get_request(host: &str) -> (r: String)
    ensures
        r@ == "GET / HTTP/1.1\r\nHost: "@ + host@
            + "\r\nConnection: close\r\nUser-Agent: GosCertInspector/1.0\r\n\r\n"@,
{
    let mut out = string_of("GET / HTTP/1.1\r\nHost: ");
    push_str(&mut out, host);
    push_str(&mut out, "\r\nConnection: close\r\nUser-Agent: GosCertInspector/1.0\r\n\r\n");
    out
}

/// Whether to read more of the response: no more than `max` bytes so far
/// (reading goes past the limit, so that a longer page is seen to be cut).
pub fn read_more(total: usize, max: usize) -> (r: bool)
    ensures
        r == (total <= max),
{
    total <= max
}

/// A step of the inspection that failed.
pub enum CoreFailure {
    /// The request is not JSON (the parser's message).
    BadJson(String),
    /// No TCP connection to the address.
    TcpConnect { addr: String, detail: String },
    /// The TLS session could not be set up.
    TlsSetup(String),
    /// The TLS handshake failed for another reason than the certificates.
    Handshake(String),
    /// The server's certificate chain was rejected in the handshake.
    ChainRejected(String),
    /// The HTTP request could not be written after the handshake.
    HttpWrite(String),
}

/// The error code and message that a failure is reported with: a
/// connection that could not be established is `TLS_HANDSHAKE`, a rejected
/// chain `CHAIN_INVALID`, a failed HTTP exchange `HTTP_GET`.
pub open spec fn failure_text(f: CoreFailure) -> (Seq<char>, Seq<char>) {
    match f {
        CoreFailure::BadJson(e) => ("BAD_JSON"@, e@),
        CoreFailure::TcpConnect { addr, detail } => (
            "TLS_HANDSHAKE"@,
            "cannot connect to "@ + addr@ + ": "@ + detail@,
        ),
        CoreFailure::TlsSetup(e) => ("TLS_HANDSHAKE"@, "TLS setup failed: "@ + e@),
        CoreFailure::Handshake(e) => ("TLS_HANDSHAKE"@, "TLS handshake failed: "@ + e@),
        CoreFailure::ChainRejected(e) => ("CHAIN_INVALID"@, "certificate chain rejected: "@ + e@),
        CoreFailure::HttpWrite(e) => ("HTTP_GET"@, "HTTP request failed: "@ + e@),
    }
}

fn prefixed_text(prefix: &str, detail: &str) -> (r: String)
    ensures
        r@ == prefix@ + detail@,
{
    let mut m = string_of(prefix);
    push_str(&mut m, detail);
    m
}

/// The report of a failed step. A request that is not JSON is reported with
/// an empty id and URL.
pub fn failure_report(request_id: &str, url: &str, f: CoreFailure) -> (r: CoreReport)
    ensures
        match f {
            CoreFailure::BadJson(_) => error_report_is(
                r,
                Seq::<char>::empty(),
                Seq::<char>::empty(),
                failure_text(f).0,
                failure_text(f).1,
            ),
            _ => error_report_is(r, request_id@, url@, failure_text(f).0, failure_text(f).1),
        },
{
    match f {
        CoreFailure::BadJson(e) => {
            proof {
                reveal_strlit("");
            }
            let r = error_response("", "", "BAD_JSON", e.as_str());
            assert(r.request_id@ =~= Seq::<char>::empty());
            assert(r.input_url@ =~= Seq::<char>::empty());
            r
        },
        CoreFailure::TcpConnect { addr, detail } => {
            let mut m = string_of("cannot connect to ");
            push_str(&mut m, addr.as_str());
            push_str(&mut m, ": ");
            push_str(&mut m, detail.as_str());
            error_response(request_id, url, "TLS_HANDSHAKE", m.as_str())
        },
        CoreFailure::TlsSetup(e) => {
            let m = prefixed_text("TLS setup failed: ", e.as_str());
            error_response(request_id, url, "TLS_HANDSHAKE", m.as_str())
        },
        CoreFailure::Handshake(e) => {
            let m = prefixed_text("TLS handshake failed: ", e.as_str());
            error_response(request_id, url, "TLS_HANDSHAKE", m.as_str())
        },
        CoreFailure::ChainRejected(e) => {
            let m = prefixed_text("certificate chain rejected: ", e.as_str());
            error_response(request_id, url, "CHAIN_INVALID", m.as_str())
        },
        CoreFailure::HttpWrite(e) => {
            let m = prefixed_text("HTTP request failed: ", e.as_str());
            error_response(request_id, url, "HTTP_GET", m.as_str())
        },
    }
}

/// `rustls::pki_types::ServerName::try_from(host)` accepts the host: it is
/// an IP address or a valid DNS name.
pub uninterp spec fn is_server_name(host: Seq<char>) -> bool;

/// `ServerName::try_from(host.to_string())`: `None` where it succeeds, else
/// the text (`to_string`) of its error, which is always `invalid dns name`
/// (the `Display` of `InvalidDnsNameError`).
#[verifier::external_body]
fn server_name_error(host: &str) -> (r: Option<String>)
    ensures
        match r {
            Some(e) => !is_server_name(host@) && e@ == "invalid dns name"@,
            None => is_server_name(host@),
        },
{
    match rustls::pki_types::ServerName::try_from(host.to_string()) {
        Ok(_) => None,
        Err(e) => Some(e.to_string()),
    }
}

/// Checks that the host can name the TLS server; the report of the failure
/// (`URL_PARSE`: the host is not a valid name) where it cannot.
pub fn check_server_name(request_id: &str, url: &str, host: &str) -> (r: Option<CoreReport>)
    ensures
        is_server_name(host@) ==> r is None,
        !is_server_name(host@) ==> (r matches Some(report) && error_report_is(
            report,
            request_id@,
            url@,
            "URL_PARSE"@,
            "invalid server name: invalid dns name"@,
        )),
{
    match server_name_error(host) {
        None => None,
        Some(e) => {
            let mut m = string_of("invalid server name: ");
            push_str(&mut m, e.as_str());
            proof {
                reveal_strlit("invalid server name: ");
                reveal_strlit("invalid dns name");
                reveal_strlit("invalid server name: invalid dns name");
            }
            assert(m@ =~= "invalid server name: invalid dns name"@);
            Some(error_response(request_id, url, "URL_PARSE", m.as_str()))
        },
    }
}


// ---------------------------------------------------------------------------
// The trust store's certificate files
// ---------------------------------------------------------------------------

/// A file of the trust store is read for certificates: its extension (what
/// follows the last `.` of a name that does not start with it) is `pem` or
/// `crt`.
pub open spec fn cert_file_name(name: Seq<char>) -> bool {
    name.len() > 4 && (ends_with(name, ".pem"@) || ends_with(name, ".crt"@))
}

/// Whether a file of the trust store is read for certificates.
pub fn is_cert_file(name: &str) -> (r: bool)
    ensures
        r == cert_file_name(name@),
{
    let v = chars_of(name);
    let pem = chars_of(".pem");
    let crt = chars_of(".crt");
    v.len() > 4 && (has_suffix(&v, &pem) || has_suffix(&v, &crt))
}

/// The DER bytes of the certificates that `rustls_pemfile::certs` finds in
/// `data`, in order (sections that fail to read are skipped).
pub uninterp spec fn pem_cert_blocks(data: Seq<u8>) -> Seq<Seq<u8>>;

/// `rustls_pemfile::certs(&mut data).flatten()`, each certificate as its DER
/// bytes: the CERTIFICATE sections of a PEM text, in order, those that fail
/// to read left out.
#[verifier::external_body]
fn pem_certs(data: &[u8]) -> (r: Vec<Vec<u8>>)
    ensures
        der_views(r@) == pem_cert_blocks(data@),
{
    let mut rd: &[u8] = data;
    rustls_pemfile::certs(&mut rd).flatten().map(|c| c.as_ref().to_vec()).collect()
}

/// The certificates of the trust-store files (name, content), in order:
/// those of the `.pem` and `.crt` files.
pub open spec fn store_certs(files: Seq<(String, Vec<u8>)>) -> Seq<Seq<u8>>
    decreases files.len(),
{
    if files.len() == 0 {
        Seq::<Seq<u8>>::empty()
    } else {
        store_certs(files.drop_last()) + if cert_file_name(files.last().0@) {
            pem_cert_blocks(files.last().1@)
        } else {
            Seq::<Seq<u8>>::empty()
        }
    }
}

/// Collects the certificates of the trust-store files that are read for
/// them.
pub fn trust_store_certs(files: &Vec<(String, Vec<u8>)>) -> (r: Vec<Vec<u8>>)
    ensures
        der_views(r@) == store_certs(files@),
{
    let mut out: Vec<Vec<u8>> = Vec::new();
    let mut i: usize = 0;
    while i < files.len()
        invariant
            i <= files@.len(),
            der_views(out@) == store_certs(files@.take(i as int)),
        decreases files.len() - i,
    {
        let (name, data) = &files[i];
        assert(files@.take(i + 1).drop_last() =~= files@.take(i as int));
        if is_cert_file(name.as_str()) {
            let mut found = pem_certs(data.as_slice());
            let ghost before = der_views(out@);
            let ghost added = der_views(found@);
            out.append(&mut found);
            assert(der_views(out@) =~= before + added);
        }
        assert(der_views(out@) =~= store_certs(files@.take(i + 1)));
        i += 1;
    }
    assert(files@.take(files@.len() as int) =~= files@);
    out
}


// ---------------------------------------------------------------------------
// Laws
// ---------------------------------------------------------------------------

proof fn lemma_before_first_concat(a: Seq<char>, b: Seq<char>, c: char)
    requires
        !a.contains(c),
    ensures
        before_first(a + b, c) == a + before_first(b, c),
        after_first(a + b, c) == after_first(b, c),
    decreases a.len(),
{
    if a.len() > 0 {
        assert((a + b).drop_first() =~= a.drop_first() + b);
        assert(!a.drop_first().contains(c)) by {
            if a.drop_first().contains(c) {
                let k = choose|k: int| 0 <= k < a.drop_first().len() && a.drop_first()[k] == c;
                assert(a[k + 1] == c);
            }
        }
        assert(a[0] != c);
        lemma_before_first_concat(a.drop_first(), b, c);
        assert(seq![a[0]] + (a.drop_first() + before_first(b, c)) =~= a + before_first(b, c));
    } else {
        assert(a + b =~= b);
        assert(a + before_first(b, c) =~= before_first(b, c));
    }
}

proof fn lemma_before_first_at(b: Seq<char>, c: char)
    requires
        b.len() == 0 || b[0] == c,
    ensures
        before_first(b, c) == Seq::<char>::empty(),
{
}

proof fn lemma_decimal_digits_read_back(n: nat)
    ensures
        decimal_digits(n).len() > 0,
        all_digits(decimal_digits(n)),
        digits_value(decimal_digits(n)) == n,
        !decimal_digits(n).contains(':'),
        !decimal_digits(n).contains('/'),
        decimal_digits(n)[0] != '+',
{
    crate::text::lemma_decimal_digits_value(n);
    let ds = decimal_digits(n);
    assert(is_ascii_digit(ds[0]));
    assert forall|i: int| 0 <= i < ds.len() implies ds[i] != ':' && ds[i] != '/' by {
        assert(is_ascii_digit(ds[i]));
    }
}

/// A URL written as `https://<host>:<port><path>` is read back as that host
/// and that port, for a host without `:` or `/` and a path that is empty or
/// starts with `/`.
pub proof fn lemma_host_port_read_back(host: Seq<char>, port: u16, path: Seq<char>)
    requires
        host.len() > 0,
        !host.contains(':'),
        !host.contains('/'),
        path.len() == 0 || path[0] == '/',
    ensures
        ({
            let url = "https://"@ + host + ":"@ + decimal_digits(port as nat) + path;
            &&& url_host(url) == Some(host)
            &&& url_port(url) == Some(port)
        }),
{
    reveal_strlit("https://");
    reveal_strlit("http://");
    reveal_strlit(":");
    let digits = decimal_digits(port as nat);
    lemma_decimal_digits_read_back(port as nat);
    let url = "https://"@ + host + ":"@ + digits + path;
    let rest = host + ":"@ + digits + path;
    assert(url.take(8) =~= "https://"@);
    assert(url.skip(8) =~= rest);
    assert(strip_scheme(url) == Some(rest));
    // the authority
    let hd = host + ":"@ + digits;
    assert(!hd.contains('/')) by {
        if hd.contains('/') {
            let k = choose|k: int| 0 <= k < hd.len() && hd[k] == '/';
            if k < host.len() {
                assert(host[k] == '/');
            } else if k == host.len() {
            } else {
                assert(digits[k - host.len() - 1] == '/');
            }
        }
    }
    assert(rest =~= hd + path);
    lemma_before_first_concat(hd, path, '/');
    lemma_before_first_at(path, '/');
    assert(authority(rest) =~= hd);
    // host and port
    assert(hd =~= host + (seq![':'] + digits));
    lemma_before_first_concat(host, seq![':'] + digits, ':');
    assert(before_first(seq![':'] + digits, ':') =~= Seq::<char>::empty());
    assert((seq![':'] + digits).drop_first() =~= digits);
    assert(before_first(hd, ':') =~= host);
    assert(after_first(hd, ':') == Some(digits));
    assert(unsigned_digits(digits) == digits);
}

// ---------------------------------------------------------------------------
// Laws of the report
// ---------------------------------------------------------------------------

/// Some error of the list has the code `code`.
pub open spec fn has_code(errs: Seq<(Seq<char>, Seq<char>)>, code: Seq<char>) -> bool {
    exists|k: int| 0 <= k < errs.len() && (#[trigger] errs[k]).0 == code
}

proof fn lemma_has_code_concat(a: Seq<(Seq<char>, Seq<char>)>, b: Seq<(Seq<char>, Seq<char>)>, code: Seq<char>)
    ensures
        has_code(a + b, code) == (has_code(a, code) || has_code(b, code)),
{
    if has_code(a + b, code) {
        let k = choose|k: int| 0 <= k < (a + b).len() && (#[trigger] (a + b)[k]).0 == code;
        if k < a.len() {
            assert(a[k] == (a + b)[k]);
        } else {
            assert(b[k - a.len()] == (a + b)[k]);
        }
    }
    if has_code(a, code) {
        let k = choose|k: int| 0 <= k < a.len() && (#[trigger] a[k]).0 == code;
        assert((a + b)[k] == a[k]);
    }
    if has_code(b, code) {
        let k = choose|k: int| 0 <= k < b.len() && (#[trigger] b[k]).0 == code;
        assert((a + b)[k + a.len()] == b[k]);
    }
}

proof fn lemma_has_code_when(c: bool, x: (Seq<char>, Seq<char>), code: Seq<char>)
    ensures
        has_code(when(c, x), code) == (c && x.0 == code),
{
    if c {
        assert(when(c, x)[0] == x);
    }
}

/// The four validation flags of a chain, checked at `now` for `host`:
/// - the host is covered when the leaf has a subject alternative name, at
///   any position of its list, that covers the lowercased host;
/// - the chain is there when the server presented a certificate;
/// - the leaf is within its validity period when `now` is not before its
///   `validFrom` and not after its `validTo` (a bound that does not parse
///   does not limit it);
/// - the Ministry's authority is named in the leaf's issuer or in the
///   subject of another certificate of the chain.
pub proof fn lemma_validation_flags(chain: Seq<CertReportView>, host: Seq<char>, now: (i64, u32))
    ensures
        ({
            let v = validation_of(chain, host, now);
            &&& v.0 == (chain.len() == 0 || exists|j: int|
                0 <= j < chain[0].san.len() && san_matches(#[trigger] chain[0].san[j], unicode_lowercase(host)))
            &&& v.1 == (chain.len() > 0)
            &&& v.2 == (chain.len() == 0 || ((match crate::x509::chrono_parse_rfc3339(chain[0].valid_from) {
                Some((s, n)) => s < now.0 || (s == now.0 && n <= now.1),
                None => true,
            }) && (match crate::x509::chrono_parse_rfc3339(chain[0].valid_to) {
                Some((s, n)) => now.0 < s || (now.0 == s && now.1 <= n),
                None => true,
            })))
            &&& v.3 == ((chain.len() > 0 && has_mincifry_marker(chain[0].issuer)) || exists|i: int|
                1 <= i < chain.len() && has_mincifry_marker(#[trigger] chain[i].subject))
        }),
{
    let v = validation_of(chain, host, now);
    if v.3 {
        let i = choose|i: int| 0 <= i < chain.len() && #[trigger] marker_at(chain, i);
        if i > 0 {
            assert(has_mincifry_marker(chain[i].subject));
        }
    }
    if (chain.len() > 0 && has_mincifry_marker(chain[0].issuer)) {
        assert(marker_at(chain, 0));
    }
    if exists|i: int| 1 <= i < chain.len() && has_mincifry_marker(#[trigger] chain[i].subject) {
        let i = choose|i: int| 1 <= i < chain.len() && has_mincifry_marker(#[trigger] chain[i].subject);
        assert(marker_at(chain, i));
    }
}

/// The errors of a completed connection name exactly the checks that
/// failed: `NO_PEER_CERT` when no certificate was presented,
/// `HOSTNAME_MISMATCH` when the host is not covered, `EXPIRED` when the leaf
/// is out of its validity period, `HTTP_STATUS` for every status of 400 or
/// above (with the message `HTTP <status>`), `HTML_TRUNCATED` when the page
/// was cut.
pub proof fn lemma_connection_error_codes(
    chain: Seq<CertReportView>,
    host: Seq<char>,
    now: (i64, u32),
    status: Option<nat>,
    truncated: bool,
    max: nat,
)
    ensures
        ({
            let errs = connection_errors(chain, host, now, status, truncated, max);
            let v = validation_of(chain, host, now);
            &&& has_code(errs, "NO_PEER_CERT"@) == (chain.len() == 0)
            &&& has_code(errs, "HOSTNAME_MISMATCH"@) == !v.0
            &&& has_code(errs, "EXPIRED"@) == !v.2
            &&& has_code(errs, "HTTP_STATUS"@) == (status matches Some(c) && c >= 400)
            &&& has_code(errs, "HTML_TRUNCATED"@) == truncated
            &&& (status matches Some(c) && c >= 400) ==> errs.contains(
                ("HTTP_STATUS"@, "HTTP "@ + decimal_digits(status.unwrap())),
            )
        }),
{
    reveal_strlit("NO_PEER_CERT");
    reveal_strlit("HOSTNAME_MISMATCH");
    reveal_strlit("EXPIRED");
    reveal_strlit("HTTP_STATUS");
    reveal_strlit("HTML_TRUNCATED");
    let v = validation_of(chain, host, now);
    let x1 = ("NO_PEER_CERT"@, "server presented no certificate"@);
    let x2 = ("HOSTNAME_MISMATCH"@, "certificate does not cover the host"@);
    let x3 = ("EXPIRED"@, "certificate is outside its validity period"@);
    let c4 = status matches Some(c) && c >= 400;
    let x4 = ("HTTP_STATUS"@, "HTTP "@ + decimal_digits(status.unwrap()));
    let x5 = ("HTML_TRUNCATED"@, "page body cut to "@ + decimal_digits(max) + " bytes"@);
    let w1 = when(chain.len() == 0, x1);
    let w2 = when(!v.0, x2);
    let w3 = when(!v.2, x3);
    let w4 = when(c4, x4);
    let w5 = when(truncated, x5);
    let errs = connection_errors(chain, host, now, status, truncated, max);
    assert(errs == w1 + w2 + w3 + w4 + w5);
    let codes = seq!["NO_PEER_CERT"@, "HOSTNAME_MISMATCH"@, "EXPIRED"@, "HTTP_STATUS"@, "HTML_TRUNCATED"@];
    assert forall|k: int| 0 <= k < 5 implies has_code(errs, #[trigger] codes[k]) == (
        (chain.len() == 0 && x1.0 == codes[k]) || (!v.0 && x2.0 == codes[k]) || (!v.2 && x3.0 == codes[k])
            || (c4 && x4.0 == codes[k]) || (truncated && x5.0 == codes[k])) by {
        lemma_has_code_concat(w1, w2, codes[k]);
        lemma_has_code_concat(w1 + w2, w3, codes[k]);
        lemma_has_code_concat(w1 + w2 + w3, w4, codes[k]);
        lemma_has_code_concat(w1 + w2 + w3 + w4, w5, codes[k]);
        lemma_has_code_when(chain.len() == 0, x1, codes[k]);
        lemma_has_code_when(!v.0, x2, codes[k]);
        lemma_has_code_when(!v.2, x3, codes[k]);
        lemma_has_code_when(c4, x4, codes[k]);
        lemma_has_code_when(truncated, x5, codes[k]);
    }
    assert("NO_PEER_CERT"@.len() == 12 && "HOSTNAME_MISMATCH"@.len() == 17 && "EXPIRED"@.len() == 7
        && "HTTP_STATUS"@.len() == 11 && "HTML_TRUNCATED"@.len() == 14);
    assert(codes[0] == "NO_PEER_CERT"@ && codes[1] == "HOSTNAME_MISMATCH"@ && codes[2] == "EXPIRED"@
        && codes[3] == "HTTP_STATUS"@ && codes[4] == "HTML_TRUNCATED"@);
    assert(has_code(errs, codes[0]) == (chain.len() == 0));
    assert(has_code(errs, codes[1]) == !v.0);
    assert(has_code(errs, codes[2]) == !v.2);
    assert(has_code(errs, codes[3]) == c4);
    assert(has_code(errs, codes[4]) == truncated);
    if c4 {
        let k = (w1 + w2 + w3).len() as int;
        assert(w4[0] == x4);
        assert(errs[k] == x4);
    }
}

/// What is reported of a certificate comes from the X.509 parser's readers:
/// for a certificate that parses, the subject and issuer are the texts of
/// the whole distinguished names as the parser renders them, the serial,
/// validity bounds (RFC 3339 by chrono, empty where out of its range),
/// subject alternative names (each formatted, in the certificate's order),
/// common name (empty where there is none), the SHA-256 of the DER bytes in
/// lowercase hex and the signature algorithm's OID; and there is no parse
/// error. A certificate that does not parse is reported with empty fields
/// and the parser's error.
pub proof fn lemma_cert_report_fields(der: Seq<u8>)
    ensures
        ({
            let c = cert_report_of(der);
            match x509_parse_error(der) {
                None => {
                    &&& c.subject == x509_subject(der)
                    &&& c.issuer == x509_issuer(der)
                    &&& c.serial_number == x509_serial(der)
                    &&& c.valid_from == match chrono_rfc3339(x509_not_before(der)) {
                        Some(t) => t,
                        None => Seq::<char>::empty(),
                    }
                    &&& c.valid_to == match chrono_rfc3339(x509_not_after(der)) {
                        Some(t) => t,
                        None => Seq::<char>::empty(),
                    }
                    &&& c.san.len() == x509_san_count(der)
                    &&& forall|i: int|
                        0 <= i < x509_san_count(der) ==> #[trigger] c.san[i] == san_text(
                            x509_san_name(der, i).unwrap(),
                        )
                    &&& c.cn == match x509_common_name(der) {
                        Some(n) => n,
                        None => Seq::<char>::empty(),
                    }
                    &&& c.fingerprint_sha256 == hex_lower(sha256(der))
                    &&& c.signature_algorithm == x509_signature_algorithm(der)
                    &&& c.parse_error is None
                },
                Some(e) => {
                    &&& c.parse_error == Some(e)
                    &&& c.subject.len() == 0 && c.issuer.len() == 0 && c.serial_number.len() == 0
                    &&& c.valid_from.len() == 0 && c.valid_to.len() == 0 && c.san.len() == 0
                    &&& c.cn.len() == 0 && c.fingerprint_sha256.len() == 0 && c.signature_algorithm.len() == 0
                },
            }
        }),
{
}

/// The status of a response whose first line is `HTTP/<version> <code> ...`
/// (a version without spaces, a three-digit code) is that code.
pub proof fn lemma_http_status_line(version: Seq<char>, code: nat, rest: Seq<char>)
    requires
        100 <= code <= 999,
        !version.contains(' '),
    ensures
        http_status("HTTP/"@ + version + " "@ + decimal_digits(code) + rest) == Some(code),
{
    reveal_strlit("HTTP/");
    reveal_strlit(" ");
    reveal_with_fuel(decimal_digits, 4);
    crate::text::lemma_decimal_digits_value(code);
    let ds = decimal_digits(code);
    assert(ds.len() == 3);
    let t = "HTTP/"@ + version + " "@ + ds + rest;
    let p: int = 5 + version.len() as int;
    assert(t.take(5) =~= "HTTP/"@);
    assert(starts_with(t, "HTTP/"@));
    assert(t.subrange(p, p + 1) =~= " "@);
    assert forall|j: int| 0 <= j < p implies !crate::text::occurs_at(t, " "@, j) by {
        if crate::text::occurs_at(t, " "@, j) {
            assert(t.subrange(j, j + 1)[0] == t[j]);
            if j >= 5 {
                assert(t[j] == version[j - 5]);
                assert(version.contains(' '));
            }
        }
    }
    assert(crate::text::is_first_occurrence(t, " "@, p));
    let q = choose|q: int| crate::text::is_first_occurrence(t, " "@, q);
    crate::text::lemma_first_occurrence_unique(t, " "@, p, q);
    assert(first_occurrence(t, " "@) == Some(p));
    assert(t.subrange(p + 1, p + 4) =~= ds);
}

/// The page body is read from at most `max` bytes of the response: all of
/// it where it is no longer, its first `max` bytes where it is.
pub proof fn lemma_page_limit(response: Seq<u8>, max: nat)
    ensures
        kept_bytes(response, max).len() <= max,
        kept_bytes(response, max).len() <= response.len(),
        kept_bytes(response, max) == response.subrange(0, kept_bytes(response, max).len() as int),
        response.len() <= max ==> page_html(response, true, max) == html_body(utf8_lossy(response)),
        response.len() > max ==> kept_bytes(response, max).len() == max,
        page_html(response, false, max).len() == 0,
{
    assert(response.subrange(0, response.len() as int) =~= response);
}

/// A request for `https://<host>:<port><path>` with a trust-store path is
/// not refused, and it is planned to that host and port.
pub proof fn lemma_written_url_is_planned(
    host: Seq<char>,
    port: u16,
    path: Seq<char>,
    trust_store_path: Seq<char>,
)
    requires
        host.len() > 0,
        !host.contains(':'),
        !host.contains('/'),
        path.len() == 0 || path[0] == '/',
        trust_store_path.len() > 0,
    ensures
        ({
            let url = "https://"@ + host + ":"@ + decimal_digits(port as nat) + path;
            &&& request_problem(url, trust_store_path) is None
            &&& url_host(url) == Some(host)
            &&& url_port(url) == Some(port)
        }),
{
    reveal_strlit("https://");
    lemma_host_port_read_back(host, port, path);
    let url = "https://"@ + host + ":"@ + decimal_digits(port as nat) + path;
    assert(url.take(8) =~= "https://"@);
}

/// A URL that does not start with `https://` (an `http://` one among them)
/// is refused with `URL_PARSE`, once the URL and the trust-store path are
/// not empty.
pub proof fn lemma_other_schemes_refused(url: Seq<char>, trust_store_path: Seq<char>)
    requires
        url.len() > 0,
        trust_store_path.len() > 0,
        !starts_with(url, "https://"@),
    ensures
        request_problem(url, trust_store_path) matches Some((code, _)) && code == "URL_PARSE"@,
{
}

} // verus!
