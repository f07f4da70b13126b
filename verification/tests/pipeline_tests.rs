use imgproxy::cache::{cache_path_for, original_cache_path_for, select_expired, CacheFileInfo};
use imgproxy::config::{default_fallback_servers, AppCfg};
use imgproxy::error::SvcError;
use imgproxy::fetch::{
    candidate_url, extract_blossom_hash, is_blossom_url, ExtractFetch, FallbackFetch, SourceFetch,
};
use imgproxy::imgops::process_image;
use imgproxy::metrics::{record_bytes_served, record_cache_hit, record_http_request, Metrics};
use imgproxy::server::{
    build_query_string, check_size, insecure_request_url, parse_resize_from_query,
    parse_thumb_params, response_cache_control, thumb_cache_key, validate_thumb_filename,
    x_cache_value, ThumbParams,
};
use imgproxy::thumbnail::{extract_args, is_video_url};
use imgproxy::transform::{Directives, OutFmt, Resize, ResizeMode};

fn test_cfg() -> AppCfg {
    AppCfg {
        bind_addr: "127.0.0.1:8080".to_string(),
        cache_dir: "cache".to_string(),
        cache_ttl_secs: 86400,
        fetch_timeout_secs: 10,
        max_image_bytes: 16 * 1024 * 1024,
        blossom_fallback_servers: default_fallback_servers(),
    }
}

#[test]
fn cache_paths_are_digest_keyed() {
    let cfg = test_cfg();
    // SHA-256 of "hello", lowercase hex.
    let expected = "2cf24dba5fb0a30e26e83b2ac5b9e29e1b161e5c1fa7425e73043362938b9824";
    assert_eq!(
        cache_path_for(&cfg, "hello", &OutFmt::Jpeg),
        format!("cache/processed/{}.jpg", expected)
    );
    assert_eq!(
        original_cache_path_for(&cfg, "hello"),
        format!("cache/original/{}", expected)
    );
    // Identical requests always key the same path.
    assert_eq!(
        cache_path_for(&cfg, "hello", &OutFmt::Jpeg),
        cache_path_for(&cfg, "hello", &OutFmt::Jpeg)
    );
    // The key depends on the canonical string and the extension.
    assert_ne!(
        cache_path_for(&cfg, "hello", &OutFmt::Webp),
        cache_path_for(&cfg, "hello", &OutFmt::Jpeg)
    );
}

#[test]
fn janitor_sweep_deletes_exactly_the_expired() {
    let entries = vec![
        CacheFileInfo {
            path: "cache/original/a".to_string(),
            created_secs: 1000,
        },
        CacheFileInfo {
            path: "cache/original/b".to_string(),
            created_secs: 5000,
        },
        CacheFileInfo {
            path: "cache/processed/c.jpg".to_string(),
            created_secs: 400,
        },
    ];
    // now = 5500, ttl = 1000: ages 4500, 500, 5100.
    let doomed = select_expired(&entries, 5500, 1000);
    assert_eq!(
        doomed,
        vec![
            "cache/original/a".to_string(),
            "cache/processed/c.jpg".to_string()
        ]
    );
    // A young file survives any number of sweeps.
    let survivors = vec![CacheFileInfo {
        path: "cache/original/b".to_string(),
        created_secs: 5000,
    }];
    for _ in 0..3 {
        assert!(select_expired(&survivors, 5500, 1000).is_empty());
    }
    // A file exactly at the TTL boundary is kept (age must exceed it).
    assert!(select_expired(&survivors, 6000, 1000).is_empty());
    assert_eq!(select_expired(&survivors, 6001, 1000).len(), 1);
}

#[test]
fn fallback_fetch_returns_first_success() {
    // Candidates s1 (404), s2 (500), s3 (success): the walk stops at s3.
    let urls = vec![
        "https://s1/x.png".to_string(),
        "https://s2/x.png".to_string(),
        "https://s3/x.png".to_string(),
    ];
    let mut walk = FallbackFetch::new(urls);
    assert_eq!(walk.next_url(), Some("https://s1/x.png".to_string()));
    walk.record_status_failure(404);
    assert_eq!(walk.next_url(), Some("https://s2/x.png".to_string()));
    walk.record_status_failure(500);
    assert_eq!(walk.next_url(), Some("https://s3/x.png".to_string()));
    // The caller takes the bytes from s3; nothing more is tried.
}

#[test]
fn fallback_fetch_surfaces_last_failure() {
    let urls = vec![
        "https://s1/x.png".to_string(),
        "https://s2/x.png".to_string(),
    ];
    let mut walk = FallbackFetch::new(urls);
    walk.record_status_failure(404);
    walk.record_status_failure(500);
    assert_eq!(walk.next_url(), None);
    assert_eq!(walk.into_error(), SvcError::UpstreamError(500));
}

#[test]
fn empty_candidate_list_is_bad_request() {
    // A request for a hash nobody can serve: no hints, no directory
    // servers, no fallbacks.
    let combined = imgproxy::blossom::combine_server_lists(None, None, &vec![]);
    let walk = FallbackFetch::new(combined);
    assert_eq!(walk.next_url(), None);
    let err = walk.into_error();
    assert_eq!(err, SvcError::BadRequest("no servers available"));
    assert!(!matches!(err, SvcError::Decode));
    assert!(!matches!(err, SvcError::Io));
}

#[test]
fn source_fetch_keeps_primary_error() {
    let fallbacks = vec!["https://fb.example/".to_string()];
    let hash = "a".repeat(64);
    let url = format!("https://cdn.example/{}.png", hash);
    let mut fetch = SourceFetch::new(url.clone(), &fallbacks).unwrap();
    assert_eq!(fetch.next_url(), Some(url));
    fetch.record_failure(SvcError::UpstreamError(404));
    // The content-addressed name retries against the fallback server.
    assert_eq!(
        fetch.next_url(),
        Some(format!("https://fb.example/{}.png", hash))
    );
    fetch.record_failure(SvcError::UpstreamError(500));
    assert_eq!(fetch.next_url(), None);
    // The surfaced error is the primary one, not the fallback's.
    assert_eq!(fetch.into_error(), SvcError::UpstreamError(404));
}

#[test]
fn extraction_walk_surfaces_last_failure() {
    // Extraction retries a content-addressed video against each
    // fallback server; an exhausted walk surfaces the LAST failure,
    // unlike the direct source fetch.
    let fallbacks = vec![
        "https://fb1.example".to_string(),
        "https://fb2.example".to_string(),
    ];
    let hash = "b".repeat(64);
    let url = format!("https://cdn.example/{}.mp4", hash);
    let mut walk = ExtractFetch::new(url.clone(), &fallbacks);
    assert_eq!(walk.next_url(), Some(url));
    walk.record_failure(SvcError::Io);
    assert_eq!(
        walk.next_url(),
        Some(format!("https://fb1.example/{}.mp4", hash))
    );
    walk.record_failure(SvcError::UpstreamError(404));
    assert_eq!(
        walk.next_url(),
        Some(format!("https://fb2.example/{}.mp4", hash))
    );
    walk.record_failure(SvcError::UpstreamError(500));
    assert_eq!(walk.next_url(), None);
    assert_eq!(walk.into_error(), SvcError::UpstreamError(500));
}

#[test]
fn extraction_walk_of_plain_url_has_one_attempt() {
    let fallbacks = vec!["https://fb.example".to_string()];
    let mut walk = ExtractFetch::new("https://example.com/clip.mp4".to_string(), &fallbacks);
    assert_eq!(
        walk.next_url(),
        Some("https://example.com/clip.mp4".to_string())
    );
    walk.record_failure(SvcError::Io);
    assert_eq!(walk.next_url(), None);
    assert_eq!(walk.into_error(), SvcError::Io);
}

#[test]
fn source_fetch_rejects_unknown_schemes() {
    let err = SourceFetch::new("ftp://example.com/a.png".to_string(), &vec![]).err();
    assert_eq!(err, Some(SvcError::BadRequest("unsupported source scheme")));
}

#[test]
fn plain_urls_have_no_fallback_candidates() {
    let fallbacks = vec!["https://fb.example".to_string()];
    let mut fetch =
        SourceFetch::new("https://example.com/cat.png".to_string(), &fallbacks).unwrap();
    fetch.record_failure(SvcError::UpstreamError(500));
    assert_eq!(fetch.next_url(), None);
    assert_eq!(fetch.into_error(), SvcError::UpstreamError(500));
}

#[test]
fn blossom_url_detection() {
    let hash = "0123456789abcdef".repeat(4);
    let url = format!("https://cdn.example/{}.webp", hash);
    assert!(is_blossom_url(&url));
    let (h, e) = extract_blossom_hash(&url).unwrap();
    assert_eq!(h, hash);
    assert_eq!(e, "webp");

    assert!(!is_blossom_url("https://cdn.example/short.webp"));
    assert!(!is_blossom_url("https://cdn.example/noextension"));
    let bad = format!("https://cdn.example/{}.webp", "z".repeat(64));
    assert!(!is_blossom_url(&bad));
}

#[test]
fn candidate_url_strips_trailing_slashes() {
    assert_eq!(
        candidate_url("https://fb.example///", "ff", "png"),
        "https://fb.example/ff.png"
    );
}

#[test]
fn thumb_params_defaults_and_validation() {
    let defaults = ThumbParams {
        format: None,
        resize: None,
        quality: None,
        server_hints: vec![],
        author_pubkey: None,
    };
    let dirs = parse_thumb_params(&defaults).unwrap();
    assert_eq!(
        dirs,
        Directives {
            out_fmt: OutFmt::Webp,
            quality: 82,
            resize: Resize {
                mode: ResizeMode::Fit,
                w: 480,
                h: 480
            }
        }
    );

    let over_quality = ThumbParams {
        quality: Some(101),
        format: None,
        resize: None,
        server_hints: vec![],
        author_pubkey: None,
    };
    assert_eq!(
        parse_thumb_params(&over_quality),
        Err(SvcError::BadRequest("quality must be 0-100"))
    );

    let bad_format = ThumbParams {
        format: Some("bmp".to_string()),
        resize: None,
        quality: None,
        server_hints: vec![],
        author_pubkey: None,
    };
    assert_eq!(
        parse_thumb_params(&bad_format),
        Err(SvcError::BadRequest("unsupported format"))
    );
}

#[test]
fn thumb_params_reject_empty_resize_box() {
    // A box with neither dimension never reaches a transform, whether
    // given as zeros or as values that do not parse.
    for rs in ["fit:0:0", "fit::", "fill:abc:xyz"] {
        let params = ThumbParams {
            format: None,
            resize: Some(rs.to_string()),
            quality: None,
            server_hints: vec![],
            author_pubkey: None,
        };
        assert_eq!(
            parse_thumb_params(&params),
            Err(SvcError::BadRequest("at least one dimension required")),
            "resize {rs:?} must be rejected"
        );
    }
    // One given dimension is enough.
    let one = ThumbParams {
        format: None,
        resize: Some("fit::600".to_string()),
        quality: None,
        server_hints: vec![],
        author_pubkey: None,
    };
    assert!(parse_thumb_params(&one).is_ok());
}

#[test]
fn resize_query_tolerates_unparsable_dimensions() {
    assert_eq!(
        parse_resize_from_query("fit:abc:600"),
        Ok(Resize {
            mode: ResizeMode::Fit,
            w: 0,
            h: 600
        })
    );
    assert_eq!(
        parse_resize_from_query("fit:600"),
        Err(SvcError::BadRequest(
            "invalid resize format, expected mode:width:height"
        ))
    );
    assert_eq!(
        parse_resize_from_query("zoom:1:1"),
        Err(SvcError::BadRequest("unsupported resize mode"))
    );
}

#[test]
fn thumb_filename_validation() {
    let hash = "ab".repeat(32);
    let filename = format!("{}.png", hash);
    let (h, e) = validate_thumb_filename(&filename).unwrap();
    assert_eq!(h, hash);
    assert_eq!(e, "png");
    assert_eq!(
        validate_thumb_filename("noextension"),
        Err(SvcError::BadRequest(
            "invalid filename format, expected <sha256>.<ext>"
        ))
    );
    assert_eq!(
        validate_thumb_filename("tooshort.png"),
        Err(SvcError::BadRequest("invalid SHA256 hash"))
    );
}

#[test]
fn canonical_cache_keys() {
    let params = ThumbParams {
        format: Some("webp".to_string()),
        resize: Some("fit:100:100".to_string()),
        quality: Some(82),
        server_hints: vec!["a.example".to_string(), "b.example".to_string()],
        author_pubkey: Some("npubexample".to_string()),
    };
    assert_eq!(
        build_query_string(&params),
        "f=webp&rs=fit:100:100&q=82&xs=a.example&xs=b.example&as=npubexample"
    );
    assert_eq!(
        thumb_cache_key("ff.png", &params),
        "/thumb/ff.png?f=webp&rs=fit:100:100&q=82&xs=a.example&xs=b.example&as=npubexample"
    );

    let empty = ThumbParams {
        format: None,
        resize: None,
        quality: None,
        server_hints: vec![],
        author_pubkey: None,
    };
    assert_eq!(build_query_string(&empty), "");
    assert_eq!(insecure_request_url("f:webp/plain/u"), "/insecure/f:webp/plain/u");
}

#[test]
fn response_metadata_values() {
    assert_eq!(
        response_cache_control(true),
        "public, max-age=31536000, immutable"
    );
    assert_eq!(
        response_cache_control(false),
        "public, max-age=3600, stale-while-revalidate=600"
    );
    assert_eq!(x_cache_value(true), "hit");
    assert_eq!(x_cache_value(false), "miss");
    assert_eq!(OutFmt::Jpeg.mime_type(), "image/jpeg");
    assert_eq!(OutFmt::Avif.mime_type(), "image/avif");
    assert_eq!(OutFmt::Webp.extension(), "webp");
    assert_eq!(OutFmt::Png.extension(), "png");
}

#[test]
fn size_cap_is_enforced() {
    assert_eq!(check_size(10, 10, "image too large"), Ok(()));
    assert_eq!(
        check_size(11, 10, "image too large"),
        Err(SvcError::BadRequest("image too large"))
    );
}

#[test]
fn error_status_codes() {
    assert_eq!(SvcError::BadRequest("x").status_code(), 400);
    assert_eq!(SvcError::UpstreamError(404).status_code(), 404);
    assert_eq!(SvcError::UpstreamError(403).status_code(), 403);
    assert_eq!(SvcError::UpstreamError(65000).status_code(), 502);
    assert_eq!(SvcError::Fetch.status_code(), 502);
    assert_eq!(SvcError::Decode.status_code(), 422);
    assert_eq!(SvcError::Io.status_code(), 500);
}

#[test]
fn video_urls_by_extension() {
    assert!(is_video_url("https://example.com/clip.mp4"));
    assert!(is_video_url("https://example.com/CLIP.MP4"));
    assert!(is_video_url("https://example.com/clip.webm"));
    assert!(!is_video_url("https://example.com/picture.jpg"));
    assert!(!is_video_url("https://example.com/noextension"));
}

#[test]
fn extraction_arguments() {
    let args = extract_args("https://example.com/clip.mp4");
    assert_eq!(
        args,
        vec![
            "-ss",
            "0.5",
            "-i",
            "https://example.com/clip.mp4",
            "-vframes",
            "1",
            "-vf",
            "scale=-1:'min(720,ih)'",
            "-q:v",
            "80",
            "-c:v",
            "libwebp",
            "-f",
            "image2",
            "-y",
        ]
    );
}

#[test]
fn metrics_count_observations() {
    let mut m = Metrics::new();
    record_cache_hit(&mut m, "processed");
    record_cache_hit(&mut m, "processed");
    record_cache_hit(&mut m, "original");
    assert_eq!(m.cache_hits_total.entries.len(), 2);
    assert_eq!(
        m.cache_hits_total.entries[0],
        (vec!["processed".to_string()], 2)
    );
    assert_eq!(
        m.cache_hits_total.entries[1],
        (vec!["original".to_string()], 1)
    );

    record_http_request(&mut m, "/thumb", "GET", 200);
    assert_eq!(
        m.http_requests_total.entries[0],
        (
            vec!["/thumb".to_string(), "GET".to_string(), "200".to_string()],
            1
        )
    );

    record_bytes_served(&mut m, "image/webp", 1024);
    record_bytes_served(&mut m, "image/webp", 26);
    assert_eq!(
        m.bytes_served_total.entries[0],
        (vec!["image/webp".to_string()], 1050)
    );
}

fn png_of(w: u32, h: u32) -> Vec<u8> {
    let img = image::DynamicImage::ImageRgb8(image::RgbImage::new(w, h));
    let mut buf = std::io::Cursor::new(Vec::new());
    img.write_to(&mut buf, image::ImageFormat::Png).unwrap();
    buf.into_inner()
}

fn dims_of(bytes: &[u8]) -> (u32, u32) {
    let img = image::load_from_memory(bytes).unwrap();
    (img.width(), img.height())
}

#[test]
fn process_image_fit_never_upscales() {
    let src = png_of(100, 50);
    let dirs = Directives {
        out_fmt: OutFmt::Png,
        quality: 82,
        resize: Resize {
            mode: ResizeMode::Fit,
            w: 400,
            h: 400,
        },
    };
    let out = process_image(&src, &dirs).unwrap();
    assert_eq!(dims_of(&out), (100, 50));
}

#[test]
fn process_image_fill_reaches_exact_box() {
    let src = png_of(100, 50);
    let dirs = Directives {
        out_fmt: OutFmt::Png,
        quality: 82,
        resize: Resize {
            mode: ResizeMode::Fill,
            w: 40,
            h: 40,
        },
    };
    let out = process_image(&src, &dirs).unwrap();
    assert_eq!(dims_of(&out), (40, 40));
}

#[test]
fn process_image_encodes_each_format() {
    let src = png_of(8, 8);
    for fmt in [OutFmt::Jpeg, OutFmt::Png, OutFmt::Webp, OutFmt::Avif] {
        let dirs = Directives {
            out_fmt: fmt,
            quality: 80,
            resize: Resize {
                mode: ResizeMode::Force,
                w: 4,
                h: 4,
            },
        };
        let out = process_image(&src, &dirs).unwrap();
        assert!(!out.is_empty());
    }
}

#[test]
fn process_image_rejects_garbage() {
    let dirs = Directives {
        out_fmt: OutFmt::Png,
        quality: 82,
        resize: Resize {
            mode: ResizeMode::Fit,
            w: 10,
            h: 10,
        },
    };
    assert_eq!(
        process_image(b"this is not an image", &dirs),
        Err(SvcError::Decode)
    );
}
