use vstd::prelude::*;

use vstd::string::StringExecFns;

use crate::error::SvcError;
use crate::fetch::spec_is_hex64;
use crate::strutil::{
    dec_of, find_char, find_char_from, find_last, find_last_char, u64_to_string,
};
use crate::transform::{
    bad_request_of, matches_reason, spec_parse_format, spec_parse_mode, Directives, OutFmt,
    ParseReason, Resize, ResizeMode,
};

verus! {

// ---------------------------------------------------------------------------
// Query-parameter request shape
// ---------------------------------------------------------------------------

/// The query parameters of a content-addressed thumbnail request, as
/// plain values: output format, resize directive, quality, server hints
/// and the author identity for the directory lookup.
pub struct ThumbParams {
    pub format: Option<String>,
    pub resize: Option<String>,
    pub quality: Option<u8>,
    pub server_hints: Vec<String>,
    pub author_pubkey: Option<String>,
}

/// A resize directive from a query parameter, `mode:width:height`; a
/// width or height that does not parse counts as zero (derived later).
pub open spec fn spec_parse_resize_query(rs: Seq<char>) -> Result<Resize, ParseReason> {
    match find_char(rs, ':') {
        None => Err(ParseReason::InvalidResizeQuery),
        Some(i) => {
            let rest = rs.subrange(i + 1, rs.len() as int);
            match find_char(rest, ':') {
                None => Err(ParseReason::InvalidResizeQuery),
                Some(j) => {
                    let p0 = rs.subrange(0, i);
                    let p1 = rest.subrange(0, j);
                    let p2 = rest.subrange(j + 1, rest.len() as int);
                    if find_char(p2, ':') is Some {
                        Err(ParseReason::InvalidResizeQuery)
                    } else {
                        match spec_parse_mode(p0) {
                            Err(e) => Err(e),
                            Ok(mode) => Ok(
                                Resize {
                                    mode,
                                    w: spec_dim_or_zero(p1) as u32,
                                    h: spec_dim_or_zero(p2) as u32,
                                },
                            ),
                        }
                    }
                },
            }
        },
    }
}

/// The value of a dimension field, zero when it does not parse.
pub open spec fn spec_dim_or_zero(s: Seq<char>) -> int {
    match crate::strutil::parse_uint_spec(s, 0xffff_ffff) {
        Some(v) => v,
        None => 0,
    }
}

fn dim_or_zero(s: &str) -> (r: u32)
    ensures
        r as int == spec_dim_or_zero(s@),
{
    match crate::strutil::parse_uint(s, 0xffff_ffff) {
        Some(v) => v,
        None => 0,
    }
}

/// Parse a resize directive from a query parameter such as `fit:480:480`.
pub fn parse_resize_from_query(rs: &str) -> (r: Result<Resize, SvcError>)
    ensures
        match spec_parse_resize_query(rs@) {
            Ok(v) => r == Ok::<Resize, SvcError>(v),
            Err(reason) => r matches Err(e) && matches_reason(e, reason),
        },
{
    let n = rs.unicode_len();
    let i = match find_char_from(rs, ':', 0) {
        None => {
            proof {
                assert(rs@.subrange(0, rs@.len() as int) =~= rs@);
            }
            return Err(bad_request_of(ParseReason::InvalidResizeQuery));
        },
        Some(i) => i,
    };
    proof {
        assert(rs@.subrange(0, rs@.len() as int) =~= rs@);
    }
    let ghost rest = rs@.subrange(i + 1, rs@.len() as int);
    let j = match find_char_from(rs, ':', i + 1) {
        None => {
            return Err(bad_request_of(ParseReason::InvalidResizeQuery));
        },
        Some(j) => j,
    };
    proof {
        assert(find_char(rest, ':') == Some(j - (i + 1)));
    }
    match find_char_from(rs, ':', j + 1) {
        Some(k) => {
            proof {
                crate::transform::lemma_find_char_in_subrange(rs@, i as int, j as int, k as int);
            }
            return Err(bad_request_of(ParseReason::InvalidResizeQuery));
        },
        None => {
            proof {
                crate::transform::lemma_find_char_none_subrange(rs@, i as int, j as int);
            }
        },
    }
    let part0 = rs.substring_char(0, i);
    let part1 = rs.substring_char(i + 1, j);
    let part2 = rs.substring_char(j + 1, n);
    proof {
        assert(part1@ =~= rest.subrange(0, j - (i + 1)));
        assert(part2@ =~= rest.subrange(j - i, rest.len() as int));
    }
    let mode = match crate::transform::parse_mode(part0) {
        Ok(m) => m,
        Err(reason) => {
            return Err(bad_request_of(reason));
        },
    };
    Ok(Resize { mode, w: dim_or_zero(part1), h: dim_or_zero(part2) })
}

/// What the query parameters of a thumbnail request mean: WEBP at
/// quality 82, fit into 480x480, unless the request says otherwise; a
/// malformed value for a recognized parameter rejects the request, and
/// so does a resize box with neither dimension given — no both-zero
/// box ever reaches a transform.
pub open spec fn spec_thumb_directives(p: ThumbParams) -> Result<Directives, ParseReason> {
    let fmt_r: Result<OutFmt, ParseReason> = match p.format {
        Some(f) => spec_parse_format(f@),
        None => Ok(OutFmt::Webp),
    };
    match fmt_r {
        Err(e) => Err(e),
        Ok(fmt) => {
            let q: u8 = match p.quality {
                Some(q) => q,
                None => 82u8,
            };
            if q > 100 {
                Err(ParseReason::QualityRange)
            } else {
                let rs_r: Result<Resize, ParseReason> = match p.resize {
                    Some(rs) => spec_parse_resize_query(rs@),
                    None => Ok(Resize { mode: ResizeMode::Fit, w: 480u32, h: 480u32 }),
                };
                match rs_r {
                    Err(e) => Err(e),
                    Ok(resize) => if resize.w == 0 && resize.h == 0 {
                        Err(ParseReason::DimensionRequired)
                    } else {
                        Ok(Directives { out_fmt: fmt, quality: q, resize })
                    },
                }
            }
        },
    }
}

/// Parse thumbnail query parameters into transformation directives.
pub fn parse_thumb_params(params: &ThumbParams) -> (r: Result<Directives, SvcError>)
    ensures
        match spec_thumb_directives(*params) {
            Ok(d) => r == Ok::<Directives, SvcError>(d),
            Err(reason) => r matches Err(e) && matches_reason(e, reason),
        },
{
    let out_fmt = match &params.format {
        Some(f) => {
            match crate::transform::parse_format(f.as_str()) {
                Ok(fmt) => fmt,
                Err(reason) => {
                    return Err(bad_request_of(reason));
                },
            }
        },
        None => OutFmt::Webp,
    };
    let quality: u8 = match &params.quality {
        Some(q) => *q,
        None => 82,
    };
    if quality > 100 {
        return Err(bad_request_of(ParseReason::QualityRange));
    }
    let resize = match &params.resize {
        Some(rs) => {
            match parse_resize_from_query(rs.as_str()) {
                Ok(v) => v,
                Err(e) => {
                    return Err(e);
                },
            }
        },
        None => Resize { mode: ResizeMode::Fit, w: 480, h: 480 },
    };
    if resize.w == 0 && resize.h == 0 {
        return Err(bad_request_of(ParseReason::DimensionRequired));
    }
    Ok(Directives { out_fmt, quality, resize })
}

// ---------------------------------------------------------------------------
// Thumb file names and cache keys
// ---------------------------------------------------------------------------

/// The `(hash, extension)` of a thumb filename `<sha256>.<ext>`: split
/// at the last dot, the hash 64 hexadecimal characters.
pub open spec fn spec_thumb_filename(f: Seq<char>) -> Result<(Seq<char>, Seq<char>), ParseReason> {
    match find_last(f, '.') {
        None => Err(ParseReason::InvalidFilename),
        Some(j) => {
            let h = f.subrange(0, j);
            let e = f.subrange(j + 1, f.len() as int);
            if spec_is_hex64(h) {
                Ok((h, e))
            } else {
                Err(ParseReason::InvalidHash)
            }
        },
    }
}

/// Validate a thumb filename and split it into content hash and
/// extension.
pub fn validate_thumb_filename(filename: &str) -> (r: Result<(&str, &str), SvcError>)
    ensures
        match spec_thumb_filename(filename@) {
            Ok(he) => r matches Ok(p) && p.0@ == he.0 && p.1@ == he.1,
            Err(reason) => r matches Err(e) && matches_reason(e, reason),
        },
{
    let n = filename.unicode_len();
    let j = match find_last_char(filename, '.') {
        None => {
            return Err(bad_request_of(ParseReason::InvalidFilename));
        },
        Some(j) => j,
    };
    proof {
        crate::strutil::lemma_find_last(filename@, '.');
    }
    let hash = filename.substring_char(0, j);
    let ext = filename.substring_char(j + 1, n);
    if crate::fetch::is_hex64(hash) {
        Ok((hash, ext))
    } else {
        Err(bad_request_of(ParseReason::InvalidHash))
    }
}

/// The canonical original-cache key of a content-addressed source:
/// `<hash>.<ext>`.
pub fn hash_ext_key(hash: &str, ext: &str) -> (r: String)
    ensures
        r@ == hash@ + "."@ + ext@,
{
    let mut out = hash.to_owned();
    out.append(".");
    out.append(ext);
    out
}

/// The canonical request string of a directive-chain request, as cached.
pub fn insecure_request_url(rest: &str) -> (r: String)
    ensures
        r@ == "/insecure/"@ + rest@,
{
    let mut out = String::from_str("/insecure/");
    out.append(rest);
    out
}

// ---------------------------------------------------------------------------
// Canonical query strings
// ---------------------------------------------------------------------------

/// Parts joined with `&`.
pub open spec fn spec_join_amp(parts: Seq<Seq<char>>) -> Seq<char>
    decreases parts.len(),
{
    if parts.len() == 0 {
        Seq::empty()
    } else if parts.len() == 1 {
        parts[0]
    } else {
        parts[0] + "&"@ + spec_join_amp(parts.drop_first())
    }
}

proof fn lemma_join_push(parts: Seq<Seq<char>>, x: Seq<char>)
    ensures
        parts.len() == 0 ==> spec_join_amp(parts.push(x)) == x,
        parts.len() > 0 ==> spec_join_amp(parts.push(x)) == spec_join_amp(parts) + "&"@ + x,
    decreases parts.len(),
{
    let ext = parts.push(x);
    if parts.len() == 0 {
        assert(ext.len() == 1);
        assert(ext[0] == x);
    } else {
        lemma_join_push(parts.drop_first(), x);
        assert(ext.drop_first() =~= parts.drop_first().push(x));
        assert(ext[0] == parts[0]);
        if parts.len() == 1 {
            assert(spec_join_amp(ext) == parts[0] + "&"@ + x);
        } else {
            assert(spec_join_amp(ext) == parts[0] + "&"@ + (spec_join_amp(parts.drop_first())
                + "&"@ + x));
            assert(parts[0] + "&"@ + (spec_join_amp(parts.drop_first()) + "&"@ + x) =~= (parts[0]
                + "&"@ + spec_join_amp(parts.drop_first())) + "&"@ + x);
        }
    }
}

/// The canonical parts of a thumb request's query string, in the order
/// they are keyed: format, resize, quality, each hint, author identity.
pub open spec fn spec_thumb_query_parts(p: ThumbParams) -> Seq<Seq<char>> {
    (match p.format {
        Some(f) => seq!["f="@ + f@],
        None => Seq::empty(),
    }) + (match p.resize {
        Some(rs) => seq!["rs="@ + rs@],
        None => Seq::empty(),
    }) + (match p.quality {
        Some(q) => seq!["q="@ + dec_of(q as int)],
        None => Seq::empty(),
    }) + Seq::new(p.server_hints@.len(), |k: int| "xs="@ + p.server_hints@[k]@) + (
    match p.author_pubkey {
        Some(a) => seq!["as="@ + a@],
        None => Seq::empty(),
    })
}

/// The canonical query string a thumb request is keyed by.
pub open spec fn spec_build_query_string(p: ThumbParams) -> Seq<char> {
    spec_join_amp(spec_thumb_query_parts(p))
}

fn push_prefixed(parts: &mut Vec<String>, prefix: &str, value: &str)
    ensures
        final(parts).deep_view() == old(parts).deep_view().push(prefix@ + value@),
{
    let ghost pre = *parts;
    let mut s = prefix.to_owned();
    s.append(value);
    parts.push(s);
    proof {
        assert(parts.deep_view() =~= pre.deep_view().push(prefix@ + value@));
    }
}

/// Build the canonical query string that keys a thumb request in the
/// processed cache.
pub fn build_query_string(params: &ThumbParams) -> (r: String)
    ensures
        r@ == spec_build_query_string(*params),
{
    let mut parts: Vec<String> = Vec::new();
    proof {
        assert(parts.deep_view() =~= Seq::<Seq<char>>::empty());
    }
    if let Some(f) = &params.format {
        push_prefixed(&mut parts, "f=", f.as_str());
    }
    let ghost g1 = (match &params.format {
        Some(f) => seq!["f="@ + f@],
        None => Seq::<Seq<char>>::empty(),
    });
    proof {
        assert(parts.deep_view() =~= g1);
    }
    if let Some(rs) = &params.resize {
        push_prefixed(&mut parts, "rs=", rs.as_str());
    }
    let ghost g2 = g1 + (match &params.resize {
        Some(rs) => seq!["rs="@ + rs@],
        None => Seq::<Seq<char>>::empty(),
    });
    proof {
        assert(parts.deep_view() =~= g2);
    }
    if let Some(q) = &params.quality {
        let qs = u64_to_string(*q as u64);
        push_prefixed(&mut parts, "q=", qs.as_str());
    }
    let ghost g3 = g2 + (match params.quality {
        Some(q) => seq!["q="@ + dec_of(q as int)],
        None => Seq::<Seq<char>>::empty(),
    });
    proof {
        assert(parts.deep_view() =~= g3);
    }
    let hn = params.server_hints.len();
    let mut i: usize = 0;
    while i < hn
        invariant
            hn == params.server_hints@.len(),
            i <= hn,
            parts.deep_view() == g3 + Seq::new(i as nat, |k: int| "xs="@ + params.server_hints@[k]@),
        decreases hn - i,
    {
        push_prefixed(&mut parts, "xs=", params.server_hints[i].as_str());
        proof {
            assert(parts.deep_view() =~= g3 + Seq::new(
                (i + 1) as nat,
                |k: int| "xs="@ + params.server_hints@[k]@,
            ));
        }
        i = i + 1;
    }
    let ghost g4 = g3 + Seq::new(params.server_hints@.len(), |k: int| "xs="@ + params.server_hints@[k]@);
    proof {
        assert(parts.deep_view() =~= g4);
    }
    if let Some(a) = &params.author_pubkey {
        push_prefixed(&mut parts, "as=", a.as_str());
    }
    proof {
        assert(parts.deep_view() =~= spec_thumb_query_parts(*params));
    }
    let pn = parts.len();
    let mut out = String::new();
    let mut j: usize = 0;
    while j < pn
        invariant
            pn == parts@.len(),
            j <= pn,
            out@ == spec_join_amp(parts.deep_view().subrange(0, j as int)),
            parts.deep_view() == spec_thumb_query_parts(*params),
        decreases pn - j,
    {
        proof {
            lemma_join_push(parts.deep_view().subrange(0, j as int), parts.deep_view()[j as int]);
            assert(parts.deep_view().subrange(0, j as int).push(parts.deep_view()[j as int])
                =~= parts.deep_view().subrange(0, j + 1));
        }
        if j > 0 {
            out.append("&");
        }
        out.append(parts[j].as_str());
        j = j + 1;
    }
    proof {
        assert(parts.deep_view().subrange(0, pn as int) =~= parts.deep_view());
    }
    out
}

/// The canonical request string a thumb request is cached under:
/// `/thumb/<filename>?<canonical query>`.
pub open spec fn spec_thumb_cache_key(filename: Seq<char>, p: ThumbParams) -> Seq<char> {
    "/thumb/"@ + filename + "?"@ + spec_build_query_string(p)
}

pub fn thumb_cache_key(filename: &str, params: &ThumbParams) -> (r: String)
    ensures
        r@ == spec_thumb_cache_key(filename@, *params),
{
    let mut out = String::from_str("/thumb/");
    out.append(filename);
    out.append("?");
    let qs = build_query_string(params);
    out.append(qs.as_str());
    out
}

// ---------------------------------------------------------------------------
// Response metadata
// ---------------------------------------------------------------------------

/// The cache-control header of a success response, decided by how the
/// request addressed its source: content-hash addressed results never
/// change and are cached long-lived and immutable; direct-URL results
/// may change under their URL and must revalidate.  Whether the bytes
/// came from the cache does not enter — that is the hit indicator's job.
pub fn response_cache_control(content_addressed: bool) -> (r: &'static str)
    ensures
        content_addressed ==> r@ == "public, max-age=31536000, immutable"@,
        !content_addressed ==> r@ == "public, max-age=3600, stale-while-revalidate=600"@,
{
    if content_addressed {
        "public, max-age=31536000, immutable"
    } else {
        "public, max-age=3600, stale-while-revalidate=600"
    }
}

/// The hit/miss indicator header value.
pub fn x_cache_value(hit: bool) -> (r: &'static str)
    ensures
        hit ==> r@ == "hit"@,
        !hit ==> r@ == "miss"@,
{
    if hit {
        "hit"
    } else {
        "miss"
    }
}

/// End-to-end empty-resolution law: a content-addressed request that
/// brings no hints, resolves no directory servers and is configured
/// with no fallbacks walks an empty candidate list, and the exhausted
/// walk fails as a bad request naming the missing servers — never as a
/// decode or I/O failure.
pub proof fn lemma_empty_resolution_fails_bad_request(m: crate::fetch::FallbackFetch, r: SvcError)
    requires
        m.urls.deep_view() == crate::blossom::combine_spec(None, None, Seq::empty()),
        m.wf(),
        m.next >= m.urls@.len(),
        crate::fetch::matches_exhausted(r, m.urls@.len() as int, m.last_status),
    ensures
        r matches SvcError::BadRequest(msg) && msg@ == "no servers available"@,
        !(r matches SvcError::Decode),
        !(r matches SvcError::Io),
{
    crate::blossom::lemma_combine_empty();
    assert(m.urls.deep_view().len() == 0);
    assert(m.urls@.len() == 0);
}

/// Enforce the configured source size cap: a body over `max` bytes
/// rejects the request with the given message.
pub fn check_size(len: usize, max: usize, too_large_msg: &'static str) -> (r: Result<
    (),
    SvcError,
>)
    ensures
        r is Ok <==> len <= max,
        r matches Err(e) ==> (e matches SvcError::BadRequest(m) && m@ == too_large_msg@),
{
    if len > max {
        Err(SvcError::BadRequest(too_large_msg))
    } else {
        Ok(())
    }
}

} // verus!
