use vstd::prelude::*;

use vstd::string::StringExecFns;

use crate::error::SvcError;
use crate::strutil::{
    find_last, find_last_char, is_hex_digit, exec_is_hex_digit, seq_starts_with, starts_with_str,
    strip_trailing, strip_trailing_str,
};

verus! {

// ---------------------------------------------------------------------------
// Content-addressed URLs
// ---------------------------------------------------------------------------

/// The path segment after the last slash, or the whole string when there
/// is none.
pub open spec fn spec_filename_of(url: Seq<char>) -> Seq<char> {
    match find_last(url, '/') {
        None => url,
        Some(i) => url.subrange(i + 1, url.len() as int),
    }
}

/// Exactly 64 hexadecimal characters: the textual form of a 256-bit
/// content hash.
pub open spec fn spec_is_hex64(s: Seq<char>) -> bool {
    s.len() == 64 && forall|k: int| 0 <= k < s.len() ==> is_hex_digit(s[k])
}

/// The `(hash, extension)` of a content-addressed URL whose last path
/// segment is `<64-hex>.<ext>`, split at the last dot; nothing otherwise.
pub open spec fn spec_extract_blossom(url: Seq<char>) -> Option<(Seq<char>, Seq<char>)> {
    let f = spec_filename_of(url);
    match find_last(f, '.') {
        None => None,
        Some(j) => {
            let h = f.subrange(0, j);
            let e = f.subrange(j + 1, f.len() as int);
            if spec_is_hex64(h) {
                Some((h, e))
            } else {
                None
            }
        },
    }
}

/// Whether `s` is 64 hexadecimal characters.
pub fn is_hex64(s: &str) -> (r: bool)
    ensures
        r == spec_is_hex64(s@),
{
    let n = s.unicode_len();
    if n != 64 {
        return false;
    }
    let mut i: usize = 0;
    while i < n
        invariant
            n == s@.len(),
            i <= n,
            forall|k: int| 0 <= k < i ==> is_hex_digit(s@[k]),
        decreases n - i,
    {
        if !exec_is_hex_digit(s.get_char(i)) {
            return false;
        }
        i = i + 1;
    }
    true
}

/// Extract the content hash and extension from a content-addressed URL,
/// when its last path segment has the `<64-hex>.<ext>` shape.
pub fn extract_blossom_hash(url: &str) -> (r: Option<(&str, &str)>)
    ensures
        match r {
            Some(p) => spec_extract_blossom(url@) == Some((p.0@, p.1@)),
            None => spec_extract_blossom(url@) is None,
        },
{
    let n = url.unicode_len();
    let start: usize = match find_last_char(url, '/') {
        None => 0,
        Some(i) => {
            proof {
                crate::strutil::lemma_find_last(url@, '/');
            }
            i + 1
        },
    };
    let fname = url.substring_char(start, n);
    proof {
        assert(fname@ =~= spec_filename_of(url@));
    }
    let fn_len = fname.unicode_len();
    let j = match find_last_char(fname, '.') {
        None => {
            return None;
        },
        Some(j) => j,
    };
    proof {
        crate::strutil::lemma_find_last(fname@, '.');
    }
    let hash = fname.substring_char(0, j);
    let ext = fname.substring_char(j + 1, fn_len);
    if is_hex64(hash) {
        Some((hash, ext))
    } else {
        None
    }
}

/// Whether a URL is content-addressed (`<64-hex>.<ext>` file name).
pub fn is_blossom_url(url: &str) -> (r: bool)
    ensures
        r == (spec_extract_blossom(url@) is Some),
{
    extract_blossom_hash(url).is_some()
}

/// The URL tried against one candidate server:
/// `<server-base>/<hash>.<ext>`, with trailing slashes of the base
/// removed.
pub open spec fn spec_candidate_url(server: Seq<char>, hash: Seq<char>, ext: Seq<char>) -> Seq<
    char,
> {
    strip_trailing(server, '/') + "/"@ + hash + "."@ + ext
}

pub fn candidate_url(server: &str, hash: &str, ext: &str) -> (r: String)
    ensures
        r@ == spec_candidate_url(server@, hash@, ext@),
{
    let mut out = strip_trailing_str(server, '/').to_owned();
    out.append("/");
    out.append(hash);
    out.append(".");
    out.append(ext);
    out
}

/// All candidate URLs for `hash.ext` against `servers`, in order.
pub open spec fn spec_candidate_urls(
    servers: Seq<Seq<char>>,
    hash: Seq<char>,
    ext: Seq<char>,
) -> Seq<Seq<char>> {
    Seq::new(servers.len(), |k: int| spec_candidate_url(servers[k], hash, ext))
}

pub fn candidate_urls(servers: &Vec<String>, hash: &str, ext: &str) -> (r: Vec<String>)
    ensures
        r.deep_view() == spec_candidate_urls(servers.deep_view(), hash@, ext@),
{
    let n = servers.len();
    let mut out: Vec<String> = Vec::new();
    let mut i: usize = 0;
    while i < n
        invariant
            n == servers@.len(),
            i <= n,
            out@.len() == i,
            forall|k: int|
                0 <= k < i ==> out.deep_view()[k] == spec_candidate_url(
                    servers.deep_view()[k],
                    hash@,
                    ext@,
                ),
        decreases n - i,
    {
        let ghost pre = out;
        out.push(candidate_url(servers[i].as_str(), hash, ext));
        proof {
            assert(servers.deep_view()[i as int] == servers@[i as int]@);
            assert(out.deep_view()[i as int] == spec_candidate_url(
                servers.deep_view()[i as int],
                hash@,
                ext@,
            ));
            assert forall|k: int| 0 <= k < i implies out.deep_view()[k]
                == pre.deep_view()[k] by {
                assert(out@[k] == pre@[k]);
            }
        }
        i = i + 1;
    }
    proof {
        assert(out.deep_view() =~= spec_candidate_urls(servers.deep_view(), hash@, ext@));
    }
    out
}

// ---------------------------------------------------------------------------
// Sequential fallback over a candidate list
// ---------------------------------------------------------------------------

/// The error surfaced once a walk over `n` candidates is exhausted with
/// `last` as the most recent recorded failure.
pub open spec fn matches_exhausted(r: SvcError, n: int, last: Option<u16>) -> bool {
    if n == 0 {
        r matches SvcError::BadRequest(m) && m@ == "no servers available"@
    } else {
        match last {
            Some(s) => r == SvcError::UpstreamError(s),
            None => r == SvcError::UpstreamError(404u16),
        }
    }
}

/// A sequential fetch-with-fallback walk over a fixed candidate list.
///
/// The caller fetches each `next_url` in turn and reports what happened;
/// the machine records every failure and decides what the walk surfaces.
/// `history` keeps the recorded failure of each tried candidate.
pub struct FallbackFetch {
    pub urls: Vec<String>,
    pub next: usize,
    pub last_status: Option<u16>,
    pub history: Ghost<Seq<u16>>,
}

impl FallbackFetch {
    /// The machine's invariant: one recorded failure per tried
    /// candidate, and the surfaced status is the most recent one.
    pub open spec fn wf(self) -> bool {
        &&& self.next == self.history@.len()
        &&& self.next <= self.urls@.len()
        &&& self.last_status == (if self.history@.len() == 0 {
            None::<u16>
        } else {
            Some(self.history@.last())
        })
    }

    /// Start a walk over `urls`, highest priority first.
    pub fn new(urls: Vec<String>) -> (r: Self)
        ensures
            r.wf(),
            r.urls == urls,
            r.next == 0,
            r.history@ == Seq::<u16>::empty(),
    {
        FallbackFetch { urls, next: 0, last_status: None, history: Ghost(Seq::empty()) }
    }

    /// The next candidate URL to try, in strict priority order; nothing
    /// once every candidate was tried.
    pub fn next_url(&self) -> (r: Option<String>)
        ensures
            match r {
                Some(u) => self.next < self.urls@.len() && u@ == self.urls@[self.next as int]@,
                None => self.next >= self.urls@.len(),
            },
    {
        if self.next < self.urls.len() {
            Some(self.urls[self.next].clone())
        } else {
            None
        }
    }

    /// Record that the current candidate answered with a non-success
    /// status; the walk moves on and this becomes the latest failure.
    pub fn record_status_failure(&mut self, status: u16)
        requires
            old(self).wf(),
            old(self).next < old(self).urls@.len(),
        ensures
            final(self).wf(),
            final(self).urls == old(self).urls,
            final(self).next == old(self).next + 1,
            final(self).history@ == old(self).history@.push(status),
            final(self).last_status == Some(status),
    {
        let n = self.urls.len();
        assert(self.next < n);
        self.last_status = Some(status);
        self.next = self.next + 1;
        proof {
            self.history@ = self.history@.push(status);
        }
    }

    /// Record that the current candidate failed in transport (connection
    /// failure, timeout, unreadable body); recorded as status 500.
    pub fn record_transport_failure(&mut self)
        requires
            old(self).wf(),
            old(self).next < old(self).urls@.len(),
        ensures
            final(self).wf(),
            final(self).urls == old(self).urls,
            final(self).next == old(self).next + 1,
            final(self).history@ == old(self).history@.push(500u16),
            final(self).last_status == Some(500u16),
    {
        self.record_status_failure(500)
    }

    /// Every candidate failed: surface the last recorded failure — not
    /// the first — or, when there was no candidate at all, a bad request
    /// naming the missing servers.
    pub fn into_error(&self) -> (r: SvcError)
        requires
            self.wf(),
            self.next >= self.urls@.len(),
        ensures
            matches_exhausted(r, self.urls@.len() as int, self.last_status),
            self.history@.len() > 0 && self.urls@.len() > 0 ==> r == SvcError::UpstreamError(
                self.history@.last(),
            ),
            self.urls@.len() == 0 ==> (r matches SvcError::BadRequest(m) && m@
                == "no servers available"@),
    {
        if self.urls.len() == 0 {
            SvcError::BadRequest("no servers available")
        } else {
            match self.last_status {
                Some(s) => SvcError::UpstreamError(s),
                None => SvcError::UpstreamError(404),
            }
        }
    }
}

/// Fallback law: a walk that tried every one of its candidates and
/// recorded the failures `m.history` surfaces the LAST of them, never an
/// earlier one.
pub proof fn lemma_fallback_surfaces_last_failure(m: FallbackFetch)
    requires
        m.wf(),
        m.next >= m.urls@.len(),
        m.urls@.len() > 0,
    ensures
        m.last_status == Some(m.history@.last()),
{
    assert(m.history@.len() == m.next);
}

/// Empty-candidate law: a walk with no candidates fails as a bad request
/// (no servers available), never as a decode or I/O failure.
pub proof fn lemma_no_candidates_is_bad_request(m: FallbackFetch, r: SvcError)
    requires
        m.urls@.len() == 0,
        matches_exhausted(r, m.urls@.len() as int, m.last_status),
    ensures
        r matches SvcError::BadRequest(msg) && msg@ == "no servers available"@,
        !(r matches SvcError::Decode),
        !(r matches SvcError::Io),
{
}

// ---------------------------------------------------------------------------
// Direct source fetch with implicit content-addressed fallback
// ---------------------------------------------------------------------------

/// The candidates a direct URL falls back to: when the URL itself is
/// content-addressed, its hash and extension against each fallback
/// server; nothing otherwise.
pub open spec fn spec_source_candidates(url: Seq<char>, servers: Seq<Seq<char>>) -> Seq<
    Seq<char>,
> {
    match spec_extract_blossom(url) {
        None => Seq::empty(),
        Some(he) => spec_candidate_urls(servers, he.0, he.1),
    }
}

/// A fetch of one direct source URL: the literal URL is tried first;
/// when it fails and the URL follows the content-addressed naming
/// convention, each fallback server is tried in turn.  Whatever the
/// fallbacks do, an exhausted walk surfaces the PRIMARY failure.
pub struct SourceFetch {
    pub primary_url: String,
    pub candidates: Vec<String>,
    pub tried_primary: bool,
    pub next: usize,
    pub primary_error: Option<SvcError>,
}

impl SourceFetch {
    pub open spec fn wf(self) -> bool {
        &&& self.next <= self.candidates@.len()
        &&& self.tried_primary == (self.primary_error is Some)
        &&& !self.tried_primary ==> self.next == 0
    }

    /// Start fetching `src_url`.  A URL with a scheme other than HTTP or
    /// HTTPS is rejected up front as a bad request.
    pub fn new(src_url: String, fallback_servers: &Vec<String>) -> (r: Result<Self, SvcError>)
        ensures
            match r {
                Ok(m) => {
                    &&& m.wf()
                    &&& m.primary_url == src_url
                    &&& !m.tried_primary
                    &&& m.next == 0
                    &&& m.candidates.deep_view() == spec_source_candidates(
                        src_url@,
                        fallback_servers.deep_view(),
                    )
                    &&& (seq_starts_with(src_url@, "http://"@) || seq_starts_with(
                        src_url@,
                        "https://"@,
                    ))
                },
                Err(e) => {
                    &&& !seq_starts_with(src_url@, "http://"@)
                    &&& !seq_starts_with(src_url@, "https://"@)
                    &&& e matches SvcError::BadRequest(m) && m@ == "unsupported source scheme"@
                },
            },
    {
        if !(starts_with_str(src_url.as_str(), "http://") || starts_with_str(
            src_url.as_str(),
            "https://",
        )) {
            return Err(SvcError::BadRequest("unsupported source scheme"));
        }
        let candidates: Vec<String> = match extract_blossom_hash(src_url.as_str()) {
            Some((hash, ext)) => candidate_urls(fallback_servers, hash, ext),
            None => Vec::new(),
        };
        proof {
            assert(candidates.deep_view() =~= spec_source_candidates(
                src_url@,
                fallback_servers.deep_view(),
            ));
        }
        Ok(
            SourceFetch {
                primary_url: src_url,
                candidates,
                tried_primary: false,
                next: 0,
                primary_error: None,
            },
        )
    }

    /// The next URL to try: the literal source URL first, then each
    /// fallback candidate in order.
    pub fn next_url(&self) -> (r: Option<String>)
        ensures
            match r {
                Some(u) => if !self.tried_primary {
                    u@ == self.primary_url@
                } else {
                    self.next < self.candidates@.len() && u@ == self.candidates@[
                        self.next as int]@
                },
                None => self.tried_primary && self.next >= self.candidates@.len(),
            },
    {
        if !self.tried_primary {
            Some(self.primary_url.clone())
        } else if self.next < self.candidates.len() {
            Some(self.candidates[self.next].clone())
        } else {
            None
        }
    }

    /// Record a failure of the current attempt.  The primary attempt's
    /// failure is kept; fallback failures only advance the walk.
    pub fn record_failure(&mut self, e: SvcError)
        requires
            old(self).wf(),
            old(self).tried_primary ==> old(self).next < old(self).candidates@.len(),
        ensures
            final(self).wf(),
            final(self).primary_url == old(self).primary_url,
            final(self).candidates == old(self).candidates,
            final(self).tried_primary,
            !old(self).tried_primary ==> final(self).primary_error == Some(e) && final(self).next
                == 0,
            old(self).tried_primary ==> final(self).primary_error == old(self).primary_error
                && final(self).next == old(self).next + 1,
    {
        if !self.tried_primary {
            self.tried_primary = true;
            self.primary_error = Some(e);
        } else {
            let n = self.candidates.len();
            assert(self.next < n);
            self.next = self.next + 1;
        }
    }

    /// Every attempt failed: surface the failure of the PRIMARY attempt,
    /// whatever the fallback servers answered.
    pub fn into_error(&self) -> (r: SvcError)
        requires
            self.wf(),
            self.tried_primary,
            self.next >= self.candidates@.len(),
        ensures
            Some(r) == self.primary_error,
    {
        match &self.primary_error {
            Some(e) => *e,
            None => {
                proof {
                    assert(false);
                }
                SvcError::UpstreamError(404)
            },
        }
    }
}

// ---------------------------------------------------------------------------
// Video extraction with content-addressed fallback
// ---------------------------------------------------------------------------

/// A video-extraction walk: the literal video URL is tried first; when
/// the URL follows the content-addressed naming convention, each
/// fallback server's candidate follows, in priority order.  No URL
/// scheme is enforced — the external tool accepts whatever protocols it
/// knows.  Unlike a direct source fetch, an exhausted extraction walk
/// surfaces the LAST recorded failure.
pub struct ExtractFetch {
    pub urls: Vec<String>,
    pub next: usize,
    pub last_error: Option<SvcError>,
    pub history: Ghost<Seq<SvcError>>,
}

impl ExtractFetch {
    /// One recorded failure per tried attempt; the surfaced error is the
    /// most recent one; the literal URL is always an attempt.
    pub open spec fn wf(self) -> bool {
        &&& self.next == self.history@.len()
        &&& self.next <= self.urls@.len()
        &&& self.urls@.len() >= 1
        &&& self.last_error == (if self.history@.len() == 0 {
            None::<SvcError>
        } else {
            Some(self.history@.last())
        })
    }

    /// Start an extraction walk over `video_url` and the fallback
    /// candidates its content-addressed name allows.
    pub fn new(video_url: String, fallback_servers: &Vec<String>) -> (r: Self)
        ensures
            r.wf(),
            r.next == 0,
            r.history@ == Seq::<SvcError>::empty(),
            r.urls.deep_view() == seq![video_url@] + spec_source_candidates(
                video_url@,
                fallback_servers.deep_view(),
            ),
    {
        let mut rest: Vec<String> = match extract_blossom_hash(video_url.as_str()) {
            Some((hash, ext)) => candidate_urls(fallback_servers, hash, ext),
            None => Vec::new(),
        };
        let ghost rest_view = rest.deep_view();
        let mut urls: Vec<String> = Vec::new();
        urls.push(video_url);
        urls.append(&mut rest);
        proof {
            assert forall|k: int| 0 <= k < urls@.len() implies urls.deep_view()[k]
                == urls@[k].deep_view() by {}
            assert(urls.deep_view() =~= (seq![urls@[0]@] + rest_view));
        }
        ExtractFetch { urls, next: 0, last_error: None, history: Ghost(Seq::empty()) }
    }

    /// The next URL to attempt extraction from, in strict priority
    /// order; nothing once every attempt was made.
    pub fn next_url(&self) -> (r: Option<String>)
        ensures
            match r {
                Some(u) => self.next < self.urls@.len() && u@ == self.urls@[self.next as int]@,
                None => self.next >= self.urls@.len(),
            },
    {
        if self.next < self.urls.len() {
            Some(self.urls[self.next].clone())
        } else {
            None
        }
    }

    /// Record that the current attempt failed; the walk moves on and
    /// this becomes the latest failure.
    pub fn record_failure(&mut self, e: SvcError)
        requires
            old(self).wf(),
            old(self).next < old(self).urls@.len(),
        ensures
            final(self).wf(),
            final(self).urls == old(self).urls,
            final(self).next == old(self).next + 1,
            final(self).history@ == old(self).history@.push(e),
            final(self).last_error == Some(e),
    {
        let n = self.urls.len();
        assert(self.next < n);
        self.last_error = Some(e);
        self.next = self.next + 1;
        proof {
            self.history@ = self.history@.push(e);
        }
    }

    /// Every attempt failed: surface the LAST recorded failure — not
    /// the first, and not the literal URL's — as the walk's outcome.
    pub fn into_error(&self) -> (r: SvcError)
        requires
            self.wf(),
            self.next >= self.urls@.len(),
        ensures
            Some(r) == self.last_error,
            r == self.history@.last(),
    {
        match &self.last_error {
            Some(e) => *e,
            None => {
                proof {
                    assert(false);
                }
                SvcError::Io
            },
        }
    }
}

/// Extraction fallback law: a walk that tried the literal URL and every
/// fallback candidate, recording the failures `m.history` in order,
/// surfaces the LAST of them, never an earlier one.
pub proof fn lemma_extraction_surfaces_last_failure(m: ExtractFetch)
    requires
        m.wf(),
        m.next >= m.urls@.len(),
    ensures
        m.last_error == Some(m.history@.last()),
        m.history@.len() >= 1,
{
    assert(m.history@.len() == m.next);
}

} // verus!
