use vstd::prelude::*;
use crate::commands::{clock_text, current_iso8601, CommandError};
use crate::json::{
    array_len, check_json, item_str, json_array_len, json_error_of, json_item_str, json_str_member,
    str_member,
};
use crate::text::{eq_ignore_ascii_case, str_eq, str_eq_ignore_ascii_case, string_of};

verus! {

// ---------------------------------------------------------------------------
// The trust-store manifest
// ---------------------------------------------------------------------------

/// Item `i` of the array `key` of the manifest has the member `file` equal
/// to `file`.
pub open spec fn has_file(manifest: Seq<char>, key: Seq<char>, i: int, file: Seq<char>) -> bool {
    json_item_str(manifest, key, i, "file"@) == Some(file)
}

/// `i` is the index of the first of the `n` items whose `file` is `file`.
pub open spec fn first_with_file(manifest: Seq<char>, key: Seq<char>, n: nat, file: Seq<char>, i: int) -> bool {
    &&& 0 <= i < n
    &&& has_file(manifest, key, i, file)
    &&& forall|j: int| 0 <= j < i ==> !#[trigger] has_file(manifest, key, j, file)
}

/// The fingerprint recorded for `file` in the array `key` of the manifest
/// text: the `fingerprintSha256` of the first item whose `file` matches
/// (`None` where it is not a string), `None` where no item matches or `key`
/// is not an array.
pub open spec fn bundled_fingerprint_of(manifest: Seq<char>, key: Seq<char>, file: Seq<char>) -> Option<
    Seq<char>,
> {
    match json_array_len(manifest, key) {
        None => None,
        Some(n) => if exists|i: int| first_with_file(manifest, key, n, file, i) {
            let i = choose|i: int| first_with_file(manifest, key, n, file, i);
            json_item_str(manifest, key, i, "fingerprintSha256"@)
        } else {
            None
        },
    }
}

proof fn lemma_first_unique(manifest: Seq<char>, key: Seq<char>, n: nat, file: Seq<char>, i: int, j: int)
    requires
        first_with_file(manifest, key, n, file, i),
        first_with_file(manifest, key, n, file, j),
    ensures
        i == j,
{
    if i < j {
        assert(!has_file(manifest, key, i, file));
    } else if j < i {
        assert(!has_file(manifest, key, j, file));
    }
}

/// The lookup finds the first item, counted from index 0, whose `file` is
/// the file asked for: where item `i` of the array (of `n` items) has that
/// file and no item before it does, the result is item `i`'s
/// `fingerprintSha256`.
pub proof fn lemma_bundled_fingerprint_first(manifest: Seq<char>, key: Seq<char>, file: Seq<char>, n: nat, i: int)
    requires
        json_array_len(manifest, key) == Some(n),
        0 <= i < n,
        json_item_str(manifest, key, i, "file"@) == Some(file),
        forall|j: int| 0 <= j < i ==> json_item_str(manifest, key, j, "file"@) != Some(file),
    ensures
        bundled_fingerprint_of(manifest, key, file) == json_item_str(manifest, key, i, "fingerprintSha256"@),
{
    assert forall|j: int| 0 <= j < i implies !#[trigger] has_file(manifest, key, j, file) by {
        assert(json_item_str(manifest, key, j, "file"@) != Some(file));
    }
    assert(first_with_file(manifest, key, n, file, i));
    let k = choose|k: int| first_with_file(manifest, key, n, file, k);
    lemma_first_unique(manifest, key, n, file, i, k);
}

/// Where no item of the array has the file asked for, or the key names no
/// array, nothing is found.
pub proof fn lemma_bundled_fingerprint_absent(manifest: Seq<char>, key: Seq<char>, file: Seq<char>)
    requires
        match json_array_len(manifest, key) {
            Some(n) => forall|j: int| 0 <= j < n ==> json_item_str(manifest, key, j, "file"@) != Some(file),
            None => true,
        },
    ensures
        bundled_fingerprint_of(manifest, key, file) is None,
{
    if let Some(n) = json_array_len(manifest, key) {
        if exists|i: int| first_with_file(manifest, key, n, file, i) {
            let i = choose|i: int| first_with_file(manifest, key, n, file, i);
            assert(json_item_str(manifest, key, i, "file"@) == Some(file));
        }
    }
}

/// Looks up the fingerprint of a bundled certificate file in the manifest
/// text.
pub fn bundled_fingerprint(manifest: &str, key: &str, file: &str) -> (r: Option<String>)
    ensures
        match r {
            Some(fp) => bundled_fingerprint_of(manifest@, key@, file@) == Some(fp@),
            None => bundled_fingerprint_of(manifest@, key@, file@) is None,
        },
{
    let n = match array_len(manifest, key) {
        Some(n) => n,
        None => return None,
    };
    let mut k: usize = 0;
    while k < n
        invariant
            k <= n,
            json_array_len(manifest@, key@) == Some(n as nat),
            forall|j: int| 0 <= j < k ==> !#[trigger] has_file(manifest@, key@, j, file@),
        decreases n - k,
    {
        let hit = match item_str(manifest, key, k, "file") {
            Some(f) => str_eq(f.as_str(), file),
            None => false,
        };
        if hit {
            proof {
                assert(first_with_file(manifest@, key@, n as nat, file@, k as int));
                let i = choose|i: int| first_with_file(manifest@, key@, n as nat, file@, i);
                lemma_first_unique(manifest@, key@, n as nat, file@, i, k as int);
            }
            return item_str(manifest, key, k, "fingerprintSha256");
        }
        k += 1;
    }
    None
}

// ---------------------------------------------------------------------------
// The online update check
// ---------------------------------------------------------------------------

/// A certificate of the trust store that is checked against its official
/// download.
pub struct UpdateSource {
    /// Name shown in the front end (`root`, `sub`).
    pub name: &'static str,
    /// Array of the manifest that lists the certificate.
    pub bundle_key: &'static str,
    /// The certificate's file in the bundled trust store.
    pub bundle_file: &'static str,
    /// Official URL of the PEM text.
    pub url: &'static str,
}

pub open spec fn source_count() -> nat {
    2
}

/// `src` is the source checked at position `i`: its name, manifest array,
/// bundled file and official URL.
pub open spec fn is_source(src: UpdateSource, i: int) -> bool {
    if i == 0 {
        &&& src.name@ == "root"@
        &&& src.bundle_key@ == "roots"@
        &&& src.bundle_file@ == "roots/russian-trusted-root-ca.pem"@
        &&& src.url@ == "https://gu-st.ru/content/lending/russian_trusted_root_ca_pem.crt"@
    } else if i == 1 {
        &&& src.name@ == "sub"@
        &&& src.bundle_key@ == "intermediates"@
        &&& src.bundle_file@ == "intermediates/russian-trusted-sub-ca.pem"@
        &&& src.url@ == "https://gu-st.ru/content/lending/russian_trusted_sub_ca_pem.crt"@
    } else {
        false
    }
}

/// The sources that are checked, in order.
pub fn update_sources() -> (r: Vec<UpdateSource>)
    ensures
        r@.len() == source_count(),
        forall|i: int| 0 <= i < source_count() ==> is_source(#[trigger] r@[i], i),
{
    let mut v: Vec<UpdateSource> = Vec::new();
    v.push(
        UpdateSource {
            name: "root",
            bundle_key: "roots",
            bundle_file: "roots/russian-trusted-root-ca.pem",
            url: "https://gu-st.ru/content/lending/russian_trusted_root_ca_pem.crt",
        },
    );
    v.push(
        UpdateSource {
            name: "sub",
            bundle_key: "intermediates",
            bundle_file: "intermediates/russian-trusted-sub-ca.pem",
            url: "https://gu-st.ru/content/lending/russian_trusted_sub_ca_pem.crt",
        },
    );
    v
}

/// The outcome of checking one source.
pub struct UpdateCheckEntry {
    pub name: String,
    pub url: String,
    pub bundled_fingerprint: String,
    pub remote_fingerprint: Option<String>,
    pub matches_bundled: bool,
    pub error: Option<String>,
}

/// The outcome of the whole update check.
pub struct UpdateCheckResult {
    pub checked_at: String,
    pub bundled_version: String,
    pub entries: Vec<UpdateCheckEntry>,
    pub up_to_date: bool,
}

/// What an entry says of its source, given the bundled fingerprint and the
/// outcome of the download (the remote fingerprint or the error text).
pub open spec fn entry_for(
    e: UpdateCheckEntry,
    src: UpdateSource,
    bundled: Seq<char>,
    fetched: Result<Seq<char>, Seq<char>>,
) -> bool {
    &&& e.name@ == src.name@
    &&& e.url@ == src.url@
    &&& e.bundled_fingerprint@ == bundled
    &&& match fetched {
        Ok(fp) => {
            &&& e.remote_fingerprint matches Some(r) && r@ == fp
            &&& e.matches_bundled == eq_ignore_ascii_case(fp, bundled)
            &&& e.error is None
        },
        Err(m) => {
            &&& e.remote_fingerprint is None
            &&& !e.matches_bundled
            &&& e.error matches Some(t) && t@ == m
        },
    }
}

/// The bundled fingerprint of a source: the manifest's, or empty.
pub open spec fn bundled_or_empty(m: Seq<char>, src: UpdateSource) -> Seq<char> {
    match bundled_fingerprint_of(m, src.bundle_key@, src.bundle_file@) {
        Some(fp) => fp,
        None => Seq::<char>::empty(),
    }
}

/// The update check in progress: the caller downloads the sources one after
/// the other (`next_url`) and reports each outcome (`record`).
pub struct UpdateCheck {
    manifest: String,
    sources: Vec<UpdateSource>,
    entries: Vec<UpdateCheckEntry>,
    all_match: bool,
}

impl UpdateCheck {
    pub closed spec fn wf(self) -> bool {
        &&& self.sources@.len() == source_count()
        &&& forall|i: int| 0 <= i < source_count() ==> is_source(#[trigger] self.sources@[i], i)
        &&& self.entries@.len() <= self.sources@.len()
        &&& self.all_match == forall|i: int|
            0 <= i < self.entries@.len() ==> #[trigger] self.entries@[i].matches_bundled
    }

    /// The manifest text the check compares against.
    pub closed spec fn manifest_spec(self) -> Seq<char> {
        self.manifest@
    }

    /// The entries recorded so far, one per source checked.
    pub closed spec fn entries_spec(self) -> Seq<UpdateCheckEntry> {
        self.entries@
    }

    /// The source checked at position `i`.
    pub closed spec fn source_spec(self, i: int) -> UpdateSource {
        self.sources@[i]
    }

    /// Starts a check against the bundled manifest text; the manifest's JSON
    /// error where it is not JSON.
    pub fn start(manifest: String) -> (r: Result<Self, CommandError>)
        ensures
            match r {
                Ok(c) => json_error_of(manifest@) is None && c.wf() && c.entries_spec().len() == 0
                    && c.manifest_spec() == manifest@,
                Err(e) => json_error_of(manifest@) is Some && e is Json,
            },
    {
        match check_json(manifest.as_str()) {
            Err((e, _)) => Err(CommandError::Json(e)),
            Ok(()) => {
                let sources = update_sources();
                Ok(UpdateCheck { manifest, sources, entries: Vec::new(), all_match: true })
            },
        }
    }

    /// The URL to download next, or `None` once every source is checked.
    pub fn next_url(&self) -> (r: Option<&'static str>)
        requires
            self.wf(),
        ensures
            self.entries_spec().len() < source_count() ==> (r matches Some(u) && is_source(
                self.source_spec(self.entries_spec().len() as int),
                self.entries_spec().len() as int,
            ) && u@ == self.source_spec(self.entries_spec().len() as int).url@),
            self.entries_spec().len() >= source_count() ==> r is None,
    {
        if self.entries.len() < self.sources.len() {
            Some(self.sources[self.entries.len()].url)
        } else {
            None
        }
    }

    /// Records the outcome of downloading the next source: its fingerprint
    /// (`Ok`) or why it could not be had (`Err`).
    pub fn record(&mut self, fetched: Result<String, String>)
        requires
            old(self).wf(),
            old(self).entries_spec().len() < source_count(),
        ensures
            final(self).wf(),
            final(self).manifest_spec() == old(self).manifest_spec(),
            final(self).entries_spec() == old(self).entries_spec().push(final(self).entries_spec().last()),
            is_source(
                old(self).source_spec(old(self).entries_spec().len() as int),
                old(self).entries_spec().len() as int,
            ),
            forall|i: int| 0 <= i < source_count() ==> #[trigger] final(self).source_spec(i) == old(self).source_spec(i),
            entry_for(
                final(self).entries_spec().last(),
                old(self).source_spec(old(self).entries_spec().len() as int),
                bundled_or_empty(
                    old(self).manifest_spec(),
                    old(self).source_spec(old(self).entries_spec().len() as int),
                ),
                match fetched {
                    Ok(fp) => Ok(fp@),
                    Err(m) => Err(m@),
                },
            ),
    {
        let src = &self.sources[self.entries.len()];
        let bundled = match bundled_fingerprint(self.manifest.as_str(), src.bundle_key, src.bundle_file) {
            Some(fp) => fp,
            None => String::new(),
        };
        let entry = match fetched {
            Ok(remote) => {
                let matches = str_eq_ignore_ascii_case(remote.as_str(), bundled.as_str());
                UpdateCheckEntry {
                    name: string_of(src.name),
                    url: string_of(src.url),
                    bundled_fingerprint: bundled,
                    remote_fingerprint: Some(remote),
                    matches_bundled: matches,
                    error: None,
                }
            },
            Err(err) => UpdateCheckEntry {
                name: string_of(src.name),
                url: string_of(src.url),
                bundled_fingerprint: bundled,
                remote_fingerprint: None,
                matches_bundled: false,
                error: Some(err),
            },
        };
        let matches = entry.matches_bundled;
        let ghost before = self.entries@;
        self.entries.push(entry);
        self.all_match = self.all_match && matches;
        assert(forall|i: int| 0 <= i < before.len() ==> self.entries@[i] == before[i]);
        assert(self.all_match == forall|i: int|
            0 <= i < self.entries@.len() ==> #[trigger] self.entries@[i].matches_bundled);
    }

    /// The result of the completed check, stamped with the current time.
    pub fn finish(self) -> (r: UpdateCheckResult)
        requires
            self.wf(),
            self.entries_spec().len() == source_count(),
        ensures
            r.entries@ == self.entries_spec(),
            r.up_to_date == forall|i: int|
                0 <= i < r.entries@.len() ==> #[trigger] r.entries@[i].matches_bundled,
            r.bundled_version@ == match json_str_member(self.manifest_spec(), "version"@) {
                Some(v) => v,
                None => Seq::<char>::empty(),
            },
            exists|reading: Option<(u64, u32)>| clock_text(reading, r.checked_at@),
    {
        let bundled_version = match str_member(self.manifest.as_str(), "version") {
            Some(v) => v,
            None => String::new(),
        };
        let checked_at = current_iso8601();
        let ghost reading = choose|reading: Option<(u64, u32)>| clock_text(reading, checked_at@);
        let r = UpdateCheckResult {
            checked_at,
            bundled_version,
            entries: self.entries,
            up_to_date: self.all_match,
        };
        assert(clock_text(reading, r.checked_at@));
        r
    }
}


/// The check is up to date exactly when every download succeeded and gave
/// the bundled fingerprint (up to ASCII case): an entry matches exactly when
/// its download did, and the result is up to date exactly when every entry
/// matches.
pub proof fn lemma_up_to_date_iff_all_match(
    r: UpdateCheckResult,
    sources: Seq<UpdateSource>,
    bundled: Seq<Seq<char>>,
    fetched: Seq<Result<Seq<char>, Seq<char>>>,
)
    requires
        r.entries@.len() == sources.len(),
        bundled.len() == sources.len(),
        fetched.len() == sources.len(),
        forall|i: int|
            0 <= i < sources.len() ==> entry_for(
                #[trigger] r.entries@[i],
                sources[i],
                bundled[i],
                fetched[i],
            ),
        r.up_to_date == forall|i: int|
            0 <= i < r.entries@.len() ==> #[trigger] r.entries@[i].matches_bundled,
    ensures
        r.up_to_date == forall|i: int|
            0 <= i < sources.len() ==> (#[trigger] fetched[i] matches Ok(fp) && eq_ignore_ascii_case(
                fp,
                bundled[i],
            )),
{
    assert forall|i: int| 0 <= i < sources.len() implies r.entries@[i].matches_bundled == (
    #[trigger] fetched[i] matches Ok(fp) && eq_ignore_ascii_case(fp, bundled[i])) by {
        assert(entry_for(r.entries@[i], sources[i], bundled[i], fetched[i]));
    }
}

} // verus!
