use vstd::prelude::*;

use vstd::string::StringExecFns;

use nostr_sdk::prelude::FromBech32;

use crate::fetch::{is_hex64, spec_is_hex64};
use crate::strutil::{
    digit_val, is_digit, is_wspace, lower_seq, lower_str, seq_starts_with, starts_with_str, str_eq,
    strip_trailing, strip_trailing_str, trim_of, trim_str,
};

verus! {

// ---------------------------------------------------------------------------
// Server URL normalization
// ---------------------------------------------------------------------------

/// `s` with a secure scheme prepended when no scheme is present.
pub open spec fn with_scheme(s: Seq<char>) -> Seq<char> {
    if seq_starts_with(s, "http://"@) || seq_starts_with(s, "https://"@) {
        s
    } else {
        "https://"@ + s
    }
}

/// The normalized form of a server URL: surrounding ASCII whitespace
/// removed, a secure scheme added when none is present, trailing
/// slashes removed.
pub open spec fn normalized(s: Seq<char>) -> Seq<char> {
    strip_trailing(with_scheme(trim_of(s)), '/')
}

/// Normalize a server URL: trim whitespace, add `https://` when no scheme
/// is present, and drop trailing slashes.
pub fn normalize_server_url(url: &str) -> (r: String)
    ensures
        r@ == normalized(url@),
{
    let t = trim_str(url);
    let w: String = if starts_with_str(t, "http://") || starts_with_str(t, "https://") {
        t.to_owned()
    } else {
        let mut s = String::from_str("https://");
        s.append(t);
        s
    };
    let stripped = strip_trailing_str(w.as_str(), '/');
    stripped.to_owned()
}

proof fn lemma_strip_trailing_no_tail(s: Seq<char>, c: char)
    ensures
        strip_trailing(s, c).len() > 0 ==> strip_trailing(s, c).last() != c,
    decreases s.len(),
{
    if s.len() > 0 && s[s.len() - 1] == c {
        lemma_strip_trailing_no_tail(s.drop_last(), c);
    }
}

/// Normalization is idempotent, except for degenerate inputs whose
/// normalized form loses its scheme again (everything after the scheme was
/// slashes, as in `"https:///"`) or ends in whitespace that stripping a
/// slash exposed (as in `"a// /"`): for every input whose normalized form
/// still starts with a scheme and does not end in whitespace, normalizing
/// that form changes nothing.
pub proof fn lemma_normalize_idempotent(u: Seq<char>)
    requires
        seq_starts_with(normalized(u), "http://"@) || seq_starts_with(normalized(u), "https://"@),
        normalized(u).len() > 0 ==> !is_wspace(normalized(u).last()),
    ensures
        normalized(normalized(u)) == normalized(u),
{
    let s = normalized(u);
    reveal_strlit("http://");
    reveal_strlit("https://");
    let p: Seq<char> = if seq_starts_with(s, "http://"@) {
        "http://"@
    } else {
        "https://"@
    };
    assert(s.subrange(0, p.len() as int) == p);
    assert(s[0] == s.subrange(0, p.len() as int)[0]);
    assert(s[0] == 'h');
    assert(s.len() >= 7);
    assert(trim_of(s) == s);
    assert(with_scheme(s) == s);
    lemma_strip_trailing_no_tail(with_scheme(trim_of(u)), '/');
    assert(s.last() != '/');
    assert(strip_trailing(s, '/') == s);
}

// ---------------------------------------------------------------------------
// Combining candidate server lists
// ---------------------------------------------------------------------------

/// A sequence of strings contains `k`.
pub open spec fn seq_contains_seq(seen: Seq<Seq<char>>, k: Seq<char>) -> bool {
    exists|i: int| 0 <= i < seen.len() && seen[i] == k
}

/// One deduplicating pass over `servers`: each entry is normalized; the
/// first entry with a given lowercased normalized form is appended to
/// `acc`, later case-insensitive duplicates are dropped.  Returns the
/// accumulated keys and output.
pub open spec fn add_servers_spec(
    seen: Seq<Seq<char>>,
    acc: Seq<Seq<char>>,
    servers: Seq<Seq<char>>,
) -> (Seq<Seq<char>>, Seq<Seq<char>>)
    decreases servers.len(),
{
    if servers.len() == 0 {
        (seen, acc)
    } else {
        let norm = normalized(servers[0]);
        let key = lower_seq(norm);
        if seq_contains_seq(seen, key) {
            add_servers_spec(seen, acc, servers.drop_first())
        } else {
            add_servers_spec(seen.push(key), acc.push(norm), servers.drop_first())
        }
    }
}

/// The combined candidate list: hint servers first, then directory
/// servers, then static fallbacks, each normalized, with case-insensitive
/// duplicates dropped in favour of the first (highest-priority) occurrence.
pub open spec fn combine_spec(
    xs: Option<Seq<Seq<char>>>,
    author: Option<Seq<Seq<char>>>,
    fallback: Seq<Seq<char>>,
) -> Seq<Seq<char>> {
    let all = (match xs {
        Some(x) => x,
        None => Seq::empty(),
    }) + (match author {
        Some(a) => a,
        None => Seq::empty(),
    }) + fallback;
    add_servers_spec(Seq::empty(), Seq::empty(), all).1
}

/// Whether some entry of `v` equals `s`.
fn contains_str(v: &Vec<String>, s: &str) -> (r: bool)
    ensures
        r == seq_contains_seq(v.deep_view(), s@),
{
    let n = v.len();
    let mut i: usize = 0;
    while i < n
        invariant
            n == v@.len(),
            i <= n,
            forall|k: int| 0 <= k < i ==> v.deep_view()[k] != s@,
        decreases n - i,
    {
        if crate::strutil::str_eq(v[i].as_str(), s) {
            assert(v.deep_view()[i as int] == s@);
            return true;
        }
        i = i + 1;
    }
    false
}

/// Append the deduplicated normalized entries of `servers` to `result`,
/// tracking lowercased keys in `seen`.
fn add_servers(seen: &mut Vec<String>, result: &mut Vec<String>, servers: &Vec<String>)
    ensures
        (final(seen).deep_view(), final(result).deep_view()) == add_servers_spec(
            old(seen).deep_view(),
            old(result).deep_view(),
            servers.deep_view(),
        ),
{
    let n = servers.len();
    proof {
        assert(servers.deep_view().len() == n);
        assert(servers.deep_view().subrange(0, n as int) =~= servers.deep_view());
    }
    let mut i: usize = 0;
    while i < n
        invariant
            n == servers@.len(),
            n == servers.deep_view().len(),
            i <= n,
            add_servers_spec(old(seen).deep_view(), old(result).deep_view(), servers.deep_view())
                == add_servers_spec(
                seen.deep_view(),
                result.deep_view(),
                servers.deep_view().subrange(i as int, n as int),
            ),
        decreases n - i,
    {
        let ghost pre_seen = seen.deep_view();
        let ghost pre_result = result.deep_view();
        let ghost rem = servers.deep_view().subrange(i as int, n as int);
        let norm = normalize_server_url(servers[i].as_str());
        let key = lower_str(norm.as_str());
        assert(rem[0] == servers.deep_view()[i as int]);
        if !contains_str(seen, key.as_str()) {
            seen.push(key);
            result.push(norm);
            assert(seen.deep_view() =~= pre_seen.push(lower_seq(normalized(rem[0]))));
            assert(result.deep_view() =~= pre_result.push(normalized(rem[0])));
        }
        i = i + 1;
        assert(rem.drop_first() =~= servers.deep_view().subrange(i as int, n as int));
    }
    proof {
        assert(servers.deep_view().subrange(n as int, n as int) =~= Seq::<Seq<char>>::empty());
    }
}

/// Combine and deduplicate candidate server lists in priority order:
/// request hints first, then directory-resolved servers, then the static
/// fallback list.  Duplicates are matched case-insensitively over the
/// ASCII letters of their normalized forms.
pub fn combine_server_lists(
    xs_servers: Option<&Vec<String>>,
    as_servers: Option<&Vec<String>>,
    fallback_servers: &Vec<String>,
) -> (r: Vec<String>)
    ensures
        r.deep_view() == combine_spec(
            match xs_servers {
                Some(x) => Some(x.deep_view()),
                None => None,
            },
            match as_servers {
                Some(a) => Some(a.deep_view()),
                None => None,
            },
            fallback_servers.deep_view(),
        ),
{
    let ghost xs_seq: Seq<Seq<char>> = match xs_servers {
        Some(x) => x.deep_view(),
        None => Seq::empty(),
    };
    let ghost as_seq: Seq<Seq<char>> = match as_servers {
        Some(a) => a.deep_view(),
        None => Seq::empty(),
    };
    let ghost fb = fallback_servers.deep_view();
    let ghost all = xs_seq + as_seq + fb;
    let ghost e: Seq<Seq<char>> = Seq::empty();
    let mut seen: Vec<String> = Vec::new();
    let mut result: Vec<String> = Vec::new();
    proof {
        assert(seen.deep_view() =~= e);
        assert(result.deep_view() =~= e);
    }
    if let Some(xs) = xs_servers {
        add_servers(&mut seen, &mut result, xs);
    }
    let ghost pair1 = (seen.deep_view(), result.deep_view());
    proof {
        if xs_servers is None {
            assert(xs_seq.len() == 0);
        }
        assert(pair1 == add_servers_spec(e, e, xs_seq));
    }
    if let Some(a) = as_servers {
        add_servers(&mut seen, &mut result, a);
    }
    let ghost pair2 = (seen.deep_view(), result.deep_view());
    proof {
        if as_servers is None {
            assert(as_seq.len() == 0);
        }
        assert(pair2 == add_servers_spec(pair1.0, pair1.1, as_seq));
    }
    add_servers(&mut seen, &mut result, fallback_servers);
    let ghost pair3 = (seen.deep_view(), result.deep_view());
    proof {
        assert(pair3 == add_servers_spec(pair2.0, pair2.1, fb));
        lemma_add_servers_append(e, e, xs_seq, as_seq + fb);
        lemma_add_servers_append(pair1.0, pair1.1, as_seq, fb);
        assert(all =~= xs_seq + (as_seq + fb));
        assert(add_servers_spec(e, e, all) == pair3);
    }
    result
}

/// Combining nothing yields no candidates: no hints, no directory
/// servers and no fallbacks leave the walk with an empty list.
pub proof fn lemma_combine_empty()
    ensures
        combine_spec(None, None, Seq::empty()) == Seq::<Seq<char>>::empty(),
{
    assert((Seq::<Seq<char>>::empty() + Seq::<Seq<char>>::empty() + Seq::<Seq<char>>::empty())
        =~= Seq::<Seq<char>>::empty());
}

/// Processing a concatenation is processing each part in turn.
proof fn lemma_add_servers_append(
    seen: Seq<Seq<char>>,
    acc: Seq<Seq<char>>,
    a: Seq<Seq<char>>,
    b: Seq<Seq<char>>,
)
    ensures
        add_servers_spec(seen, acc, a + b) == {
            let mid = add_servers_spec(seen, acc, a);
            add_servers_spec(mid.0, mid.1, b)
        },
    decreases a.len(),
{
    if a.len() == 0 {
        assert(a + b =~= b);
    } else {
        let norm = normalized(a[0]);
        let key = lower_seq(norm);
        assert((a + b)[0] == a[0]);
        assert((a + b).drop_first() =~= a.drop_first() + b);
        if seq_contains_seq(seen, key) {
            lemma_add_servers_append(seen, acc, a.drop_first(), b);
        } else {
            lemma_add_servers_append(seen.push(key), acc.push(norm), a.drop_first(), b);
        }
    }
}

// ---------------------------------------------------------------------------
// Identity keys
// ---------------------------------------------------------------------------

/// What bech32 decoding yields for an identity string: the 32 raw key
/// bytes of a well-formed encoding, nothing otherwise.
pub uninterp spec fn bech32_pubkey_of(s: Seq<char>) -> Option<Seq<u8>>;

/// Relies on nostr's `PublicKey::from_bech32`: decoding depends on the
/// characters alone and a decoded key is exactly 32 bytes.
#[verifier::external_body]
fn pubkey_from_bech32(s: &str) -> (r: Option<Vec<u8>>)
    ensures
        r matches Some(b) ==> bech32_pubkey_of(s@) == Some(b@) && b@.len() == 32,
        r is None ==> bech32_pubkey_of(s@) is None,
{
    match nostr_sdk::prelude::PublicKey::from_bech32(s) {
        Ok(pk) => Some(pk.to_bytes().to_vec()),
        Err(_) => None,
    }
}

/// Numeric value of one hexadecimal digit, either case.
pub open spec fn hex_val(c: char) -> int {
    if is_digit(c) {
        digit_val(c)
    } else if 'a' <= c && c <= 'f' {
        c as int - 'a' as int + 10
    } else {
        c as int - 'A' as int + 10
    }
}

/// The bytes a string of hexadecimal digit pairs denotes, high nibble
/// first.
pub open spec fn spec_hex_decode(s: Seq<char>) -> Seq<u8> {
    Seq::new((s.len() / 2) as nat, |k: int| (hex_val(s[2 * k]) * 16 + hex_val(s[2 * k + 1])) as u8)
}

fn exec_hex_val(c: char) -> (r: u8)
    requires
        crate::strutil::is_hex_digit(c),
    ensures
        r as int == hex_val(c),
        r < 16,
{
    let u = c as u32;
    if u >= 97 {
        (u - 87) as u8
    } else if u >= 65 {
        (u - 55) as u8
    } else {
        (u - 48) as u8
    }
}

/// Decode 64 hexadecimal characters into 32 key bytes.
fn hex_decode64(s: &str) -> (r: Vec<u8>)
    requires
        spec_is_hex64(s@),
    ensures
        r@ == spec_hex_decode(s@),
        r@.len() == 32,
{
    let mut out: Vec<u8> = Vec::new();
    let mut k: usize = 0;
    while k < 32
        invariant
            spec_is_hex64(s@),
            k <= 32,
            out@.len() == k,
            forall|j: int| 0 <= j < k ==> out@[j] == spec_hex_decode(s@)[j],
        decreases 32 - k,
    {
        let hi = exec_hex_val(s.get_char(2 * k));
        let lo = exec_hex_val(s.get_char(2 * k + 1));
        out.push(hi * 16 + lo);
        k = k + 1;
    }
    proof {
        assert(out@ =~= spec_hex_decode(s@));
    }
    out
}

/// The identity key a string denotes: a bech32 encoding is tried first,
/// then 64 raw hexadecimal characters; anything else is invalid.
pub open spec fn spec_parse_pubkey(s: Seq<char>) -> Option<Seq<u8>> {
    match bech32_pubkey_of(s) {
        Some(b) => Some(b),
        None => if spec_is_hex64(s) {
            Some(spec_hex_decode(s))
        } else {
            None
        },
    }
}

/// Parse an identity key from its bech32 or raw hexadecimal encoding.
pub fn parse_pubkey(pubkey_str: &str) -> (r: Option<Vec<u8>>)
    ensures
        match r {
            Some(b) => spec_parse_pubkey(pubkey_str@) == Some(b@) && b@.len() == 32,
            None => spec_parse_pubkey(pubkey_str@) is None,
        },
{
    match pubkey_from_bech32(pubkey_str) {
        Some(b) => Some(b),
        None => {
            if is_hex64(pubkey_str) {
                Some(hex_decode64(pubkey_str))
            } else {
                None
            }
        },
    }
}

// ---------------------------------------------------------------------------
// The directory cache
// ---------------------------------------------------------------------------

/// One cached directory record: an identity key, the server list it
/// published, and when it was fetched (whole seconds).
pub struct DirEntry {
    pub key: Vec<u8>,
    pub servers: Vec<String>,
    pub cached_at_secs: u64,
}

/// The first cached record of `key`, if any.
pub open spec fn spec_dir_find(entries: Seq<DirEntry>, key: Seq<u8>) -> Option<DirEntry>
    decreases entries.len(),
{
    if entries.len() == 0 {
        None
    } else if entries[0].key@ == key {
        Some(entries[0])
    } else {
        spec_dir_find(entries.drop_first(), key)
    }
}

/// A record fetched at `cached` is still fresh at `now` under `ttl`.
pub open spec fn spec_fresh(cached: int, now: int, ttl: int) -> bool {
    now >= cached ==> now - cached < ttl
}

/// What a cache read yields: the recorded servers while the record is
/// fresh, nothing on a miss or after expiry.
pub open spec fn spec_dir_lookup(entries: Seq<DirEntry>, key: Seq<u8>, now: int, ttl: int) -> Option<
    Seq<Seq<char>>,
> {
    match spec_dir_find(entries, key) {
        None => None,
        Some(e) => if spec_fresh(e.cached_at_secs as int, now, ttl) {
            Some(e.servers.deep_view())
        } else {
            None
        },
    }
}

/// Whether two byte keys are equal.
fn bytes_eq(a: &Vec<u8>, b: &Vec<u8>) -> (r: bool)
    ensures
        r == (a@ == b@),
{
    let n = a.len();
    if n != b.len() {
        assert(a@ != b@);
        return false;
    }
    let mut i: usize = 0;
    while i < n
        invariant
            n == a@.len(),
            n == b@.len(),
            i <= n,
            forall|k: int| 0 <= k < i ==> a@[k] == b@[k],
        decreases n - i,
    {
        if a[i] != b[i] {
            return false;
        }
        i = i + 1;
    }
    proof {
        assert(a@ =~= b@);
    }
    true
}

/// The per-identity directory cache: one record per identity,
/// overwritten on refresh, never swept — freshness is checked on read.
pub struct DirectoryCache {
    pub entries: Vec<DirEntry>,
}

impl DirectoryCache {
    /// One record per identity.
    pub open spec fn wf(self) -> bool {
        forall|i: int, j: int|
            0 <= i < j < self.entries@.len() ==> self.entries@[i].key@ != self.entries@[j].key@
    }

    /// An empty cache.
    pub fn new() -> (r: Self)
        ensures
            r.wf(),
            r.entries@.len() == 0,
    {
        DirectoryCache { entries: Vec::new() }
    }

    /// Read the server list cached for `key`: the recorded servers while
    /// the record is fresh at `now_secs`, nothing on a miss or past the
    /// TTL.
    pub fn lookup(&self, key: &Vec<u8>, now_secs: u64, ttl_secs: u64) -> (r: Option<Vec<String>>)
        ensures
            match r {
                Some(s) => spec_dir_lookup(self.entries@, key@, now_secs as int, ttl_secs as int)
                    == Some(s.deep_view()),
                None => spec_dir_lookup(self.entries@, key@, now_secs as int, ttl_secs as int)
                    is None,
            },
    {
        let n = self.entries.len();
        let mut i: usize = 0;
        while i < n
            invariant
                n == self.entries@.len(),
                i <= n,
                forall|k: int| 0 <= k < i ==> self.entries@[k].key@ != key@,
            decreases n - i,
        {
            let e = &self.entries[i];
            if bytes_eq(&e.key, key) {
                proof {
                    lemma_dir_find_at(self.entries@, i as int, key@);
                }
                let fresh = if now_secs >= e.cached_at_secs {
                    now_secs - e.cached_at_secs < ttl_secs
                } else {
                    true
                };
                if fresh {
                    return Some(e.servers.clone());
                } else {
                    return None;
                }
            }
            i = i + 1;
        }
        proof {
            lemma_dir_find_none(self.entries@, key@);
        }
        None
    }

    /// Cache (or refresh) the record of `key`: the old record of that
    /// identity, if any, is overwritten; every other identity's record
    /// stays.
    pub fn insert(&mut self, key: Vec<u8>, servers: Vec<String>, now_secs: u64)
        requires
            old(self).wf(),
        ensures
            final(self).wf(),
            spec_dir_find(final(self).entries@, key@) matches Some(e) && e.servers.deep_view()
                == servers.deep_view() && e.cached_at_secs == now_secs,
            forall|other: Seq<u8>|
                other != key@ ==> spec_dir_find(final(self).entries@, other) == spec_dir_find(
                    old(self).entries@,
                    other,
                ),
    {
        let n = self.entries.len();
        let mut i: usize = 0;
        while i < n
            invariant
                n == self.entries@.len(),
                i <= n,
                forall|k: int| 0 <= k < i ==> self.entries@[k].key@ != key@,
                self == old(self),
                old(self).wf(),
            decreases n - i,
        {
            if bytes_eq(&self.entries[i].key, &key) {
                let ghost pre = self.entries@;
                let e = DirEntry { key, servers, cached_at_secs: now_secs };
                proof {
                    lemma_dir_update(pre, i as int, e, key@);
                }
                self.entries[i] = e;
                proof {
                    assert(self.entries@ =~= pre.update(i as int, e));
                    assert forall|a: int, b: int|
                        0 <= a < b < self.entries@.len() implies self.entries@[a].key@
                        != self.entries@[b].key@ by {
                        assert(pre[a].key@ != pre[b].key@);
                    }
                }
                return ;
            }
            i = i + 1;
        }
        let ghost pre = self.entries@;
        let e = DirEntry { key, servers, cached_at_secs: now_secs };
        proof {
            lemma_dir_push(pre, e, key@);
        }
        self.entries.push(e);
        proof {
            assert forall|a: int, b: int|
                0 <= a < b < self.entries@.len() implies self.entries@[a].key@
                != self.entries@[b].key@ by {
                if b < pre.len() {
                    assert(pre[a].key@ != pre[b].key@);
                } else {
                    assert(self.entries@[b] == e);
                    assert(pre[a].key@ != key@);
                }
            }
        }
    }
}

proof fn lemma_dir_find_at(entries: Seq<DirEntry>, i: int, key: Seq<u8>)
    requires
        0 <= i < entries.len(),
        entries[i].key@ == key,
        forall|k: int| 0 <= k < i ==> entries[k].key@ != key,
    ensures
        spec_dir_find(entries, key) == Some(entries[i]),
    decreases i,
{
    if i > 0 {
        lemma_dir_find_at(entries.drop_first(), i - 1, key);
    }
}

proof fn lemma_dir_find_none(entries: Seq<DirEntry>, key: Seq<u8>)
    requires
        forall|k: int| 0 <= k < entries.len() ==> entries[k].key@ != key,
    ensures
        spec_dir_find(entries, key) is None,
    decreases entries.len(),
{
    if entries.len() > 0 {
        assert forall|k: int|
            0 <= k < entries.drop_first().len() implies entries.drop_first()[k].key@ != key by {
            assert(entries.drop_first()[k] == entries[k + 1]);
        }
        lemma_dir_find_none(entries.drop_first(), key);
    }
}

proof fn lemma_dir_update(entries: Seq<DirEntry>, i: int, e: DirEntry, key: Seq<u8>)
    requires
        0 <= i < entries.len(),
        entries[i].key@ == key,
        e.key@ == key,
        forall|k: int| 0 <= k < i ==> entries[k].key@ != key,
    ensures
        spec_dir_find(entries.update(i, e), key) == Some(e),
        forall|other: Seq<u8>|
            other != key ==> spec_dir_find(entries.update(i, e), other) == spec_dir_find(
                entries,
                other,
            ),
    decreases entries.len(),
{
    let upd = entries.update(i, e);
    if i == 0 {
        assert(upd[0] == e);
        assert forall|other: Seq<u8>| other != key implies spec_dir_find(upd, other)
            == spec_dir_find(entries, other) by {
            assert(upd.drop_first() =~= entries.drop_first());
        }
    } else {
        assert forall|k: int|
            0 <= k < i - 1 implies entries.drop_first()[k].key@ != key by {
            assert(entries.drop_first()[k] == entries[k + 1]);
        }
        assert(entries.drop_first()[i - 1] == entries[i]);
        lemma_dir_update(entries.drop_first(), i - 1, e, key);
        let upd_d = entries.drop_first().update(i - 1, e);
        assert(upd.drop_first() =~= upd_d);
        assert(upd[0] == entries[0]);
        assert(entries[0].key@ != key);
        assert(spec_dir_find(upd, key) == spec_dir_find(upd_d, key));
        assert forall|other: Seq<u8>| other != key implies spec_dir_find(upd, other)
            == spec_dir_find(entries, other) by {
            if upd[0].key@ != other {
                assert(spec_dir_find(upd, other) == spec_dir_find(upd_d, other));
                assert(spec_dir_find(upd_d, other) == spec_dir_find(entries.drop_first(), other));
                assert(spec_dir_find(entries, other) == spec_dir_find(
                    entries.drop_first(),
                    other,
                ));
            }
        }
    }
}

proof fn lemma_dir_push(entries: Seq<DirEntry>, e: DirEntry, key: Seq<u8>)
    requires
        e.key@ == key,
        forall|k: int| 0 <= k < entries.len() ==> entries[k].key@ != key,
    ensures
        spec_dir_find(entries.push(e), key) == Some(e),
        forall|other: Seq<u8>|
            other != key ==> spec_dir_find(entries.push(e), other) == spec_dir_find(
                entries,
                other,
            ),
    decreases entries.len(),
{
    let ext = entries.push(e);
    if entries.len() == 0 {
        assert(ext[0] == e);
        assert forall|other: Seq<u8>| other != key implies spec_dir_find(ext, other)
            == spec_dir_find(entries, other) by {
            assert(ext.drop_first() =~= Seq::<DirEntry>::empty());
            assert(spec_dir_find(ext.drop_first(), other) is None);
            assert(spec_dir_find(entries, other) is None);
        }
    } else {
        assert forall|k: int|
            0 <= k < entries.drop_first().len() implies entries.drop_first()[k].key@ != key by {
            assert(entries.drop_first()[k] == entries[k + 1]);
        }
        lemma_dir_push(entries.drop_first(), e, key);
        let ext_d = entries.drop_first().push(e);
        assert(ext[0] == entries[0]);
        assert(ext.drop_first() =~= ext_d);
        assert(entries[0].key@ != key);
        assert(spec_dir_find(ext, key) == spec_dir_find(ext_d, key));
        assert forall|other: Seq<u8>| other != key implies spec_dir_find(ext, other)
            == spec_dir_find(entries, other) by {
            if ext[0].key@ != other {
                assert(spec_dir_find(ext, other) == spec_dir_find(ext_d, other));
                assert(spec_dir_find(ext_d, other) == spec_dir_find(entries.drop_first(), other));
                assert(spec_dir_find(entries, other) == spec_dir_find(
                    entries.drop_first(),
                    other,
                ));
            }
        }
    }
}

// ---------------------------------------------------------------------------
// Selecting servers from directory records
// ---------------------------------------------------------------------------

/// One directory record as the logic reads it: its logical timestamp and
/// its tags, each a list of strings.
pub struct DirEvent {
    pub created_at: u64,
    pub tags: Vec<Vec<String>>,
}

/// The index of the newest record; among equal timestamps the last one
/// wins.
pub open spec fn spec_latest_event_idx(events: Seq<DirEvent>) -> int
    decreases events.len(),
{
    if events.len() <= 1 {
        0
    } else {
        let r = spec_latest_event_idx(events.drop_last());
        if events.last().created_at >= events[r].created_at {
            events.len() - 1
        } else {
            r
        }
    }
}

/// The servers a record's tags publish: the second field of every
/// `server` tag, normalized, in tag order.
pub open spec fn spec_server_tags(tags: Seq<Vec<String>>) -> Seq<Seq<char>>
    decreases tags.len(),
{
    if tags.len() == 0 {
        Seq::empty()
    } else {
        let rest = spec_server_tags(tags.drop_first());
        let t = tags[0];
        if t@.len() >= 2 && t@[0]@ == "server"@ {
            seq![normalized(t@[1]@)] + rest
        } else {
            rest
        }
    }
}

proof fn lemma_latest_event_idx_bounds(events: Seq<DirEvent>)
    requires
        events.len() > 0,
    ensures
        0 <= spec_latest_event_idx(events) < events.len(),
    decreases events.len(),
{
    if events.len() > 1 {
        lemma_latest_event_idx_bounds(events.drop_last());
    }
}

/// Select the published server list from fetched directory records: the
/// newest record's `server` tags, normalized; no records, no servers.
pub fn select_servers(events: &Vec<DirEvent>) -> (r: Vec<String>)
    ensures
        events@.len() == 0 ==> r.deep_view() == Seq::<Seq<char>>::empty(),
        events@.len() > 0 ==> r.deep_view() == spec_server_tags(
            events@[spec_latest_event_idx(events@)].tags@,
        ),
{
    let n = events.len();
    if n == 0 {
        let r: Vec<String> = Vec::new();
        proof {
            assert(r.deep_view() =~= Seq::<Seq<char>>::empty());
        }
        return r;
    }
    let mut best: usize = 0;
    let mut i: usize = 1;
    while i < n
        invariant
            n == events@.len(),
            1 <= i <= n,
            best < i,
            best as int == spec_latest_event_idx(events@.subrange(0, i as int)),
        decreases n - i,
    {
        proof {
            lemma_latest_event_idx_bounds(events@.subrange(0, i as int));
            assert(events@.subrange(0, i + 1).drop_last() =~= events@.subrange(0, i as int));
        }
        if events[i].created_at >= events[best].created_at {
            best = i;
        }
        i = i + 1;
    }
    proof {
        assert(events@.subrange(0, n as int) =~= events@);
    }
    let tags = &events[best].tags;
    let tn = tags.len();
    let mut out: Vec<String> = Vec::new();
    proof {
        assert(tags@.subrange(0, tn as int) =~= tags@);
    }
    let mut j: usize = tn;
    while j > 0
        invariant
            tn == tags@.len(),
            j <= tn,
            out.deep_view() == spec_server_tags(tags@.subrange(j as int, tn as int)),
        decreases j,
    {
        j = j - 1;
        let ghost pre = out.deep_view();
        let ghost sub = tags@.subrange(j as int, tn as int);
        let t = &tags[j];
        if t.len() >= 2 && str_eq(t[0].as_str(), "server") {
            out.insert(0, normalize_server_url(t[1].as_str()));
        }
        proof {
            assert(sub[0] == tags@[j as int]);
            assert(sub.drop_first() =~= tags@.subrange(j + 1, tn as int));
            if tags@[j as int]@.len() >= 2 && tags@[j as int]@[0]@ == "server"@ {
                assert(out.deep_view() =~= seq![normalized(tags@[j as int]@[1]@)] + pre);
            }
        }
    }
    out
}

} // verus!
