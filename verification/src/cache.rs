use vstd::prelude::*;

use vstd::string::StringExecFns;

use sha2::Digest;

use crate::config::AppCfg;
use crate::strutil::digit_char;
use crate::transform::{spec_extension, OutFmt};

verus! {

// ---------------------------------------------------------------------------
// Cache key derivation
// ---------------------------------------------------------------------------

/// What the 256-bit digest of a byte string is.  A digest depends on the
/// input bytes alone.
pub uninterp spec fn sha256_of(bytes: Seq<u8>) -> Seq<u8>;

/// Relies on sha2::Sha256: the digest is a function of the input bytes
/// alone and is exactly 32 bytes long.
#[verifier::external_body]
fn sha256_digest(bytes: &[u8]) -> (r: Vec<u8>)
    ensures
        r@ == sha256_of(bytes@),
        r@.len() == 32,
{
    sha2::Sha256::digest(bytes).to_vec()
}

/// Lowercase hexadecimal digit for a value in `0..16`.
pub open spec fn hex_digit(d: int) -> char {
    if d < 10 {
        digit_char(d)
    } else {
        ((d + 87) as u8) as char
    }
}

/// Lowercase hexadecimal encoding, two digits per byte, high nibble
/// first.
pub open spec fn hex_of(bytes: Seq<u8>) -> Seq<char>
    decreases bytes.len(),
{
    if bytes.len() == 0 {
        Seq::empty()
    } else {
        hex_of(bytes.drop_last()) + seq![
            hex_digit(bytes.last() as int / 16),
            hex_digit(bytes.last() as int % 16),
        ]
    }
}

/// Relies on hex::encode: lowercase hexadecimal, two digits per byte,
/// high nibble first.
#[verifier::external_body]
fn hex_encode(bytes: &Vec<u8>) -> (r: String)
    ensures
        r@ == hex_of(bytes@),
{
    hex::encode(bytes)
}

/// The file name of a cache entry: hex digest of the canonical string,
/// then a dot and the extension.
pub open spec fn spec_cache_file_name(canonical: Seq<u8>, ext: Seq<char>) -> Seq<char> {
    hex_of(sha256_of(canonical)) + "."@ + ext
}

/// The relative cache path of a processed entry for `request_url`:
/// `processed/<hex-digest>.<output extension>` under the cache root.
pub open spec fn spec_cache_path(cfg: AppCfg, request_url: Seq<char>, fmt: OutFmt) -> Seq<char> {
    cfg.cache_dir@ + "/processed/"@ + spec_cache_file_name(
        vstd::utf8::encode_utf8(request_url),
        spec_extension(fmt),
    )
}

/// The cache path of an original (pre-transform) entry for `source_url`:
/// `original/<hex-digest>` under the cache root.
pub open spec fn spec_original_cache_path(cfg: AppCfg, source_url: Seq<char>) -> Seq<char> {
    cfg.cache_dir@ + "/original/"@ + hex_of(sha256_of(vstd::utf8::encode_utf8(source_url)))
}

/// Cache file path for a processed image: a deterministic digest of the
/// canonical request string, combined with the output extension.
pub fn cache_path_for(cfg: &AppCfg, request_url: &str, fmt: &OutFmt) -> (r: String)
    ensures
        r@ == spec_cache_path(*cfg, request_url@, *fmt),
{
    let digest = sha256_digest(request_url.as_bytes());
    let hexs = hex_encode(&digest);
    let mut out = cfg.cache_dir.clone();
    out.append("/processed/");
    out.append(hexs.as_str());
    out.append(".");
    out.append(fmt.extension());
    out
}

/// Cache file path for an original image: a deterministic digest of the
/// canonical source locator string.
pub fn original_cache_path_for(cfg: &AppCfg, source_url: &str) -> (r: String)
    ensures
        r@ == spec_original_cache_path(*cfg, source_url@),
{
    let digest = sha256_digest(source_url.as_bytes());
    let hexs = hex_encode(&digest);
    let mut out = cfg.cache_dir.clone();
    out.append("/original/");
    out.append(hexs.as_str());
    out
}

/// Identical canonical strings always key the same cache file; what two
/// distinct strings key apart rests on the digest.  The byte-level round
/// trip through durable storage lives with the caller.
pub proof fn lemma_cache_key_deterministic(cfg: AppCfg, a: Seq<char>, b: Seq<char>, fmt: OutFmt)
    requires
        a == b,
    ensures
        spec_cache_path(cfg, a, fmt) == spec_cache_path(cfg, b, fmt),
        spec_original_cache_path(cfg, a) == spec_original_cache_path(cfg, b),
{
}

// ---------------------------------------------------------------------------
// Eviction sweep
// ---------------------------------------------------------------------------

/// What the janitor knows of one cache file: its path and the creation
/// (or, failing that, modification) time in whole seconds.
#[derive(Debug, Clone)]
pub struct CacheFileInfo {
    pub path: String,
    pub created_secs: u64,
}

/// A file is expired when its age at `now` exceeds the TTL.  A timestamp
/// in the future counts as age zero and never expires.
pub open spec fn spec_expired(created: int, now: int, ttl: int) -> bool {
    now >= created && now - created > ttl
}

/// The paths that one sweep at time `now` deletes: exactly the expired
/// entries, in listing order.
pub open spec fn spec_expired_paths(entries: Seq<CacheFileInfo>, now: int, ttl: int) -> Seq<
    Seq<char>,
>
    decreases entries.len(),
{
    if entries.len() == 0 {
        Seq::empty()
    } else {
        let rest = spec_expired_paths(entries.drop_first(), now, ttl);
        if spec_expired(entries[0].created_secs as int, now, ttl) {
            seq![entries[0].path@] + rest
        } else {
            rest
        }
    }
}

/// Decide one eviction sweep: given the listed cache files, the current
/// time and the TTL, return the paths to delete.  Reading and deleting
/// stay with the caller; this decision is the janitor's whole policy.
pub fn select_expired(entries: &Vec<CacheFileInfo>, now_secs: u64, ttl_secs: u64) -> (r: Vec<
    String,
>)
    ensures
        r.deep_view() == spec_expired_paths(entries@, now_secs as int, ttl_secs as int),
{
    let n = entries.len();
    let mut out: Vec<String> = Vec::new();
    proof {
        assert(entries@.subrange(0, n as int) =~= entries@);
    }
    let mut i: usize = n;
    while i > 0
        invariant
            n == entries@.len(),
            i <= n,
            out.deep_view() == spec_expired_paths(
                entries@.subrange(i as int, n as int),
                now_secs as int,
                ttl_secs as int,
            ),
        decreases i,
    {
        i = i - 1;
        let ghost pre = out.deep_view();
        let ghost sub = entries@.subrange(i as int, n as int);
        let e = &entries[i];
        let expired = now_secs >= e.created_secs && now_secs - e.created_secs > ttl_secs;
        if expired {
            out.insert(0, e.path.clone());
        }
        proof {
            assert(sub[0] == entries@[i as int]);
            assert(sub.drop_first() =~= entries@.subrange(i + 1, n as int));
            if expired {
                assert(out.deep_view() =~= seq![entries@[i as int].path@] + pre);
            }
        }
    }
    out
}

/// Janitor law, first half: a file whose age exceeds the TTL is among
/// the paths that the sweep deletes.
pub proof fn lemma_sweep_removes_expired(entries: Seq<CacheFileInfo>, now: int, ttl: int, k: int)
    requires
        0 <= k < entries.len(),
        spec_expired(entries[k].created_secs as int, now, ttl),
    ensures
        spec_expired_paths(entries, now, ttl).contains(entries[k].path@),
    decreases entries.len(),
{
    if k == 0 {
        assert(spec_expired_paths(entries, now, ttl)[0] == entries[0].path@);
    } else {
        lemma_sweep_removes_expired(entries.drop_first(), now, ttl, k - 1);
        let rest = spec_expired_paths(entries.drop_first(), now, ttl);
        let j = choose|j: int| 0 <= j < rest.len() && rest[j] == entries[k].path@;
        if spec_expired(entries[0].created_secs as int, now, ttl) {
            assert(spec_expired_paths(entries, now, ttl)[j + 1] == entries[k].path@);
        }
    }
}

/// Janitor law, second half: a file within the TTL is never deleted, by
/// this sweep or any repetition of it, as long as no listed entry of the
/// same path is expired.
pub proof fn lemma_sweep_keeps_young(entries: Seq<CacheFileInfo>, now: int, ttl: int, p: Seq<char>)
    requires
        forall|k: int|
            0 <= k < entries.len() && entries[k].path@ == p ==> !spec_expired(
                entries[k].created_secs as int,
                now,
                ttl,
            ),
    ensures
        !spec_expired_paths(entries, now, ttl).contains(p),
    decreases entries.len(),
{
    if entries.len() > 0 {
        assert forall|k: int|
            0 <= k < entries.drop_first().len() && entries.drop_first()[k].path@
                == p implies !spec_expired(
            entries.drop_first()[k].created_secs as int,
            now,
            ttl,
        ) by {
            assert(entries.drop_first()[k] == entries[k + 1]);
        }
        lemma_sweep_keeps_young(entries.drop_first(), now, ttl, p);
        let cur = spec_expired_paths(entries, now, ttl);
        let rest = spec_expired_paths(entries.drop_first(), now, ttl);
        if spec_expired(entries[0].created_secs as int, now, ttl) {
            assert(entries[0].path@ != p);
            if cur.contains(p) {
                let j = choose|j: int| 0 <= j < cur.len() && cur[j] == p;
                assert(j >= 1);
                assert(rest[j - 1] == p);
                assert(rest.contains(p));
            }
        } else {
            if cur.contains(p) {
                assert(rest.contains(p));
            }
        }
    }
}

/// A sweep over survivors deletes nothing: entries all within the TTL
/// yield an empty deletion list, so a young cache survives any number of
/// sweeps at the same time.
pub proof fn lemma_sweep_idempotent(entries: Seq<CacheFileInfo>, now: int, ttl: int)
    requires
        forall|k: int|
            0 <= k < entries.len() ==> !spec_expired(entries[k].created_secs as int, now, ttl),
    ensures
        spec_expired_paths(entries, now, ttl) == Seq::<Seq<char>>::empty(),
    decreases entries.len(),
{
    if entries.len() > 0 {
        assert forall|k: int| 0 <= k < entries.drop_first().len() implies !spec_expired(
            entries.drop_first()[k].created_secs as int,
            now,
            ttl,
        ) by {
            assert(entries.drop_first()[k] == entries[k + 1]);
        }
        lemma_sweep_idempotent(entries.drop_first(), now, ttl);
        assert(!spec_expired(entries[0].created_secs as int, now, ttl));
    }
}

} // verus!
