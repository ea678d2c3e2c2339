use vstd::prelude::*;
use base64::Engine;
use crate::text::{chars_of, has_prefix_at, push_chars, push_str, starts_with, string_of, trim, trim_bounds};

verus! {

// ---------------------------------------------------------------------------
// Lines of a text
// ---------------------------------------------------------------------------

/// The pieces of `s` between its `'\n'` characters. A `"\r\n"` line ending
/// leaves a `'\r'` at the end of its line; after the trimming that every line
/// gets below, these lines are those of `str::lines`, with at most one extra
/// empty line at the end, which the certificate scan below passes over.
pub open spec fn split_lines(s: Seq<char>) -> Seq<Seq<char>>
    decreases s.len(),
{
    if s.len() == 0 {
        seq![Seq::<char>::empty()]
    } else {
        let rest = split_lines(s.drop_last());
        if s.last() == '\n' {
            rest.push(Seq::<char>::empty())
        } else {
            rest.update(rest.len() - 1, rest.last().push(s.last()))
        }
    }
}

proof fn lemma_split_lines_nonempty(s: Seq<char>)
    ensures
        split_lines(s).len() >= 1,
    decreases s.len(),
{
    if s.len() > 0 {
        lemma_split_lines_nonempty(s.drop_last());
    }
}

/// The contents of each line of `lines`.
pub open spec fn line_views(lines: Seq<Vec<char>>) -> Seq<Seq<char>> {
    lines.map_values(|l: Vec<char>| l@)
}

/// Splits `s` at its `'\n'` characters.
pub fn lines_of(s: &Vec<char>) -> (r: Vec<Vec<char>>)
    ensures
        line_views(r@) == split_lines(s@),
{
    let mut lines: Vec<Vec<char>> = Vec::new();
    let mut cur: Vec<char> = Vec::new();
    let mut i: usize = 0;
    assert(s@.take(0) =~= Seq::<char>::empty());
    assert(line_views(lines@).push(cur@) =~= split_lines(s@.take(0)));
    while i < s.len()
        invariant
            i <= s@.len(),
            line_views(lines@).push(cur@) == split_lines(s@.take(i as int)),
        decreases s.len() - i,
    {
        let ghost before = s@.take(i as int);
        assert(s@.take(i + 1).drop_last() =~= before);
        proof {
            lemma_split_lines_nonempty(before);
        }
        let ghost old_lines = line_views(lines@);
        if s[i] == '\n' {
            lines.push(cur);
            cur = Vec::new();
            assert(line_views(lines@) =~= old_lines.push(split_lines(before).last()));
            assert(line_views(lines@).push(cur@) =~= split_lines(s@.take(i + 1)));
        } else {
            cur.push(s[i]);
            assert(line_views(lines@) =~= old_lines);
            assert(line_views(lines@).push(cur@) =~= split_lines(s@.take(i + 1)));
        }
        i += 1;
    }
    assert(s@.take(s@.len() as int) =~= s@);
    let ghost done = line_views(lines@).push(cur@);
    lines.push(cur);
    assert(line_views(lines@) =~= done);
    lines
}

// ---------------------------------------------------------------------------
// The first CERTIFICATE block of a PEM text
// ---------------------------------------------------------------------------

pub open spec fn begin_marker() -> Seq<char> {
    "-----BEGIN CERTIFICATE"@
}

pub open spec fn end_marker() -> Seq<char> {
    "-----END CERTIFICATE"@
}

/// State of the scan: (inside a block, scan over, base64 text so far).
pub type ScanState = (bool, bool, Seq<char>);

/// One line of the scan. After a line that starts with the END marker the
/// scan is over; a BEGIN line starts (or restarts) collecting; inside a
/// block every other non-empty line, trimmed, is appended to the text.
pub open spec fn scan_line(st: ScanState, line: Seq<char>) -> ScanState {
    let t = trim(line);
    if st.1 {
        st
    } else if starts_with(t, begin_marker()) {
        (true, false, st.2)
    } else if starts_with(t, end_marker()) {
        (st.0, true, st.2)
    } else if st.0 && t.len() > 0 {
        (st.0, false, st.2 + t)
    } else {
        st
    }
}

pub open spec fn scan_lines(lines: Seq<Seq<char>>) -> ScanState
    decreases lines.len(),
{
    if lines.len() == 0 {
        (false, false, Seq::<char>::empty())
    } else {
        scan_line(scan_lines(lines.drop_last()), lines.last())
    }
}

/// The base64 text of the first CERTIFICATE block of `pem`.
pub open spec fn pem_base64_text(pem: Seq<char>) -> Seq<char> {
    scan_lines(split_lines(pem)).2
}

/// Collects the base64 text of the first CERTIFICATE block of `pem`.
pub fn pem_base64(pem: &str) -> (r: String)
    ensures
        r@ == pem_base64_text(pem@),
{
    let text = chars_of(pem);
    let lines = lines_of(&text);
    let begin = chars_of("-----BEGIN CERTIFICATE");
    let end = chars_of("-----END CERTIFICATE");
    let mut in_cert = false;
    let mut b64 = String::new();
    let mut i: usize = 0;
    let ghost all = line_views(lines@);
    assert(all.take(0) =~= Seq::<Seq<char>>::empty());
    while i < lines.len()
        invariant
            all == line_views(lines@),
            all == split_lines(pem@),
            begin@ == begin_marker(),
            end@ == end_marker(),
            i <= all.len(),
            scan_lines(all.take(i as int)) == (in_cert, false, b64@),
        decreases lines.len() - i,
    {
        assert(all.take(i + 1).drop_last() =~= all.take(i as int));
        let line = &lines[i];
        assert(line@ == all[i as int]);
        let (a, b) = trim_bounds(line);
        let ghost t = trim(line@);
        assert(line@.subrange(a as int, b as int).skip(0) =~= t);
        let trimmed = crate::text::string_from_chars(line, a, b);
        let tv = chars_of(trimmed.as_str());
        assert(tv@.skip(0) =~= t);
        if has_prefix_at(&tv, 0, &begin) {
            in_cert = true;
        } else if has_prefix_at(&tv, 0, &end) {
            assert(scan_lines(all.take(i + 1)).2 == b64@);
            assert(all.take(i + 1).len() == i + 1);
            proof {
                lemma_scan_over(all, i as int + 1);
            }
            return b64;
        } else if in_cert && tv.len() > 0 {
            push_str(&mut b64, trimmed.as_str());
        }
        i += 1;
    }
    assert(all.take(all.len() as int) =~= all);
    b64
}

/// Once a scan is over, further lines change nothing.
proof fn lemma_scan_over(all: Seq<Seq<char>>, k: int)
    requires
        0 <= k <= all.len(),
        scan_lines(all.take(k)).1,
    ensures
        scan_lines(all) == scan_lines(all.take(k)),
    decreases all.len() - k,
{
    if k < all.len() {
        assert(all.take(k + 1).drop_last() =~= all.take(k));
        lemma_scan_over(all, k + 1);
    } else {
        assert(all.take(k) =~= all);
    }
}


// ---------------------------------------------------------------------------
// Base64 (the `base64` crate)
// ---------------------------------------------------------------------------

/// What `base64::engine::general_purpose::STANDARD.decode` makes of `input`:
/// `Some(bytes)` where it decodes, `None` where it reports an error.
pub uninterp spec fn base64_standard_decode(input: Seq<u8>) -> Option<Seq<u8>>;

/// The text (`Display`) of the error that `STANDARD.decode(input)` reports,
/// where it reports one.
pub uninterp spec fn base64_decode_error(input: Seq<u8>) -> Seq<char>;

/// `base64::engine::general_purpose::STANDARD.decode(input)` (RFC 4648
/// alphabet, canonical padding required), its error given by its text. The
/// contract claims that the outcome, the decoded bytes and the error text
/// depend on `input` alone.
#[verifier::external_body]
fn decode_base64_standard(input: &[u8]) -> (r: Result<Vec<u8>, String>)
    ensures
        match r {
            Ok(v) => base64_standard_decode(input@) == Some(v@),
            Err(t) => base64_standard_decode(input@) is None && t@ == base64_decode_error(input@),
        },
{
    match base64::engine::general_purpose::STANDARD.decode(input) {
        Ok(v) => Ok(v),
        Err(e) => Err(e.to_string()),
    }
}

/// The DER bytes of the first CERTIFICATE block of `pem`: the base64 text
/// that `pem_base64_text` collects, decoded. An empty text is refused before
/// decoding.
pub fn pem_to_der(pem: &str) -> (r: Result<Vec<u8>, String>)
    ensures
        pem_base64_text(pem@).len() == 0 ==> (r matches Err(m) && m@ == "no CERTIFICATE block in PEM"@),
        pem_base64_text(pem@).len() > 0 ==> match r {
            Ok(der) => base64_standard_decode(vstd::utf8::encode_utf8(pem_base64_text(pem@))) == Some(der@),
            Err(m) => base64_standard_decode(vstd::utf8::encode_utf8(pem_base64_text(pem@))) is None
                && m@ == "base64 decode: "@ + base64_decode_error(
                vstd::utf8::encode_utf8(pem_base64_text(pem@)),
            ),
        },
{
    let b64 = pem_base64(pem);
    if b64.as_str().is_empty() {
        return Err(string_of("no CERTIFICATE block in PEM"));
    }
    match decode_base64_standard(b64.as_str().as_bytes()) {
        Ok(der) => Ok(der),
        Err(t) => {
            let mut m = string_of("base64 decode: ");
            push_str(&mut m, t.as_str());
            assert(m@ == "base64 decode: "@ + t@);
            Err(m)
        },
    }
}

} // verus!
