use imgproxy::error::SvcError;
use imgproxy::transform::{
    calculate_dimensions, parse_resize_directive, parse_rest, resize_plan, OutFmt, Resize,
    ResizeMode,
};

#[test]
fn parse_rest_full_chain() {
    let (dirs, url) =
        parse_rest("f:webp/q:85/rs:fill:480:480/plain/https://example.com/img.jpg").unwrap();
    assert_eq!(dirs.out_fmt, OutFmt::Webp);
    assert_eq!(dirs.quality, 85);
    assert_eq!(dirs.resize.mode, ResizeMode::Fill);
    assert_eq!(dirs.resize.w, 480);
    assert_eq!(dirs.resize.h, 480);
    assert_eq!(url, "https://example.com/img.jpg");
}

#[test]
fn parse_rest_defaults_and_unknown_directives() {
    let (dirs, url) = parse_rest("zoom:2/rs:fit:800:/plain/http://a.example/b.png").unwrap();
    assert_eq!(dirs.out_fmt, OutFmt::Jpeg);
    assert_eq!(dirs.quality, 82);
    assert_eq!(dirs.resize.mode, ResizeMode::Fit);
    assert_eq!(dirs.resize.w, 800);
    assert_eq!(dirs.resize.h, 0);
    assert_eq!(url, "http://a.example/b.png");
}

#[test]
fn parse_rest_decodes_percent_encoding() {
    let (_, url) =
        parse_rest("rs:fit:100:100/plain/https%3A%2F%2Fexample.com%2Fa%20b.jpg").unwrap();
    assert_eq!(url, "https://example.com/a b.jpg");
}

#[test]
fn parse_rest_same_input_same_output() {
    let input = "f:avif/q:40/rt:auto:300:200/plain/https://example.com/x.png";
    let a = parse_rest(input).unwrap();
    let b = parse_rest(input).unwrap();
    assert_eq!(a, b);
}

#[test]
fn parse_rest_rejections() {
    assert_eq!(
        parse_rest("f:webp/q:85"),
        Err(SvcError::BadRequest("missing /plain/ segment"))
    );
    assert_eq!(
        parse_rest("q:101/rs:fit:1:1/plain/u"),
        Err(SvcError::BadRequest("bad quality"))
    );
    assert_eq!(
        parse_rest("q:abc/rs:fit:1:1/plain/u"),
        Err(SvcError::BadRequest("bad quality"))
    );
    assert_eq!(
        parse_rest("f:tiff/rs:fit:1:1/plain/u"),
        Err(SvcError::BadRequest("unsupported format"))
    );
    assert_eq!(
        parse_rest("f:webp/plain/u"),
        Err(SvcError::BadRequest("at least one dimension required"))
    );
    assert_eq!(
        parse_rest("rs:fit::/plain/u"),
        Err(SvcError::BadRequest("at least one dimension required"))
    );
    assert_eq!(
        parse_rest("rs:zoom:1:1/plain/u"),
        Err(SvcError::BadRequest("unsupported resize mode"))
    );
    assert_eq!(
        parse_rest("rs:fit:800/plain/u"),
        Err(SvcError::BadRequest("invalid resize format"))
    );
    assert_eq!(
        parse_rest("rs:fit:a:1/plain/u"),
        Err(SvcError::BadRequest("bad width"))
    );
    assert_eq!(
        parse_rest("rs:fit:1:b/plain/u"),
        Err(SvcError::BadRequest("bad height"))
    );
}

#[test]
fn parse_resize_directive_shapes() {
    assert_eq!(
        parse_resize_directive("fill:480:480"),
        Ok(Resize {
            mode: ResizeMode::Fill,
            w: 480,
            h: 480
        })
    );
    assert_eq!(
        parse_resize_directive("fit::600"),
        Ok(Resize {
            mode: ResizeMode::Fit,
            w: 0,
            h: 600
        })
    );
    assert_eq!(
        parse_resize_directive("FILL-DOWN:10:20"),
        Ok(Resize {
            mode: ResizeMode::FillDown,
            w: 10,
            h: 20
        })
    );
    assert_eq!(
        parse_resize_directive("fit:1:2:3"),
        Err(SvcError::BadRequest("invalid resize format"))
    );
}

#[test]
fn quality_parse_matches_std() {
    // std's unsigned parsing accepts a leading plus sign.
    let (dirs, _) = parse_rest("q:+82/rs:fit:1:1/plain/u").unwrap();
    assert_eq!(dirs.quality, 82);
}

#[test]
fn calculate_dimensions_derives_missing_sides() {
    assert_eq!(calculate_dimensions(100, 50, 0, 25), (50, 25));
    assert_eq!(calculate_dimensions(100, 50, 200, 0), (200, 100));
    assert_eq!(calculate_dimensions(100, 50, 0, 0), (100, 50));
    assert_eq!(calculate_dimensions(100, 50, 30, 40), (30, 40));
    // Rounding to nearest: 1 * 3/2 = 1.5 rounds up.
    assert_eq!(calculate_dimensions(3, 2, 0, 1), (2, 1));
}

#[test]
fn fit_never_upscales_scenario() {
    // Source 100x50, target 400x400: the scale clamps to 1.0.
    let p = resize_plan(
        100,
        50,
        &Resize {
            mode: ResizeMode::Fit,
            w: 400,
            h: 400,
        },
    );
    assert!(!p.crop);
    assert_eq!((p.scale_w, p.scale_h), (100, 50));
}

#[test]
fn fit_scales_down_proportionally() {
    let p = resize_plan(
        100,
        50,
        &Resize {
            mode: ResizeMode::Fit,
            w: 50,
            h: 50,
        },
    );
    assert!(!p.crop);
    assert_eq!((p.scale_w, p.scale_h), (50, 25));
}

#[test]
fn fill_reaches_exact_box_scenario() {
    // Source 100x50, target 40x40: scale 0.8, then center-crop to 40x40.
    let p = resize_plan(
        100,
        50,
        &Resize {
            mode: ResizeMode::Fill,
            w: 40,
            h: 40,
        },
    );
    assert!(p.crop);
    assert_eq!((p.scale_w, p.scale_h), (80, 40));
    assert_eq!((p.crop_x, p.crop_y), (20, 0));
    assert_eq!((p.crop_w, p.crop_h), (40, 40));
}

#[test]
fn fill_upscales_when_needed() {
    let p = resize_plan(
        10,
        10,
        &Resize {
            mode: ResizeMode::Fill,
            w: 30,
            h: 20,
        },
    );
    assert!(p.crop);
    assert_eq!((p.scale_w, p.scale_h), (30, 30));
    assert_eq!((p.crop_w, p.crop_h), (30, 20));
    assert_eq!((p.crop_x, p.crop_y), (0, 5));
}

#[test]
fn fill_down_never_upscales() {
    // Target larger than the source: scale clamps to 1.0 and the crop
    // window shrinks to what exists.
    let p = resize_plan(
        100,
        50,
        &Resize {
            mode: ResizeMode::FillDown,
            w: 400,
            h: 400,
        },
    );
    assert!(p.crop);
    assert_eq!((p.scale_w, p.scale_h), (100, 50));
    assert_eq!((p.crop_w, p.crop_h), (100, 50));

    // Target smaller: behaves like fill.
    let p2 = resize_plan(
        100,
        50,
        &Resize {
            mode: ResizeMode::FillDown,
            w: 40,
            h: 40,
        },
    );
    assert_eq!((p2.scale_w, p2.scale_h), (80, 40));
    assert_eq!((p2.crop_w, p2.crop_h), (40, 40));
}

#[test]
fn force_stretches_anisotropically() {
    let p = resize_plan(
        100,
        50,
        &Resize {
            mode: ResizeMode::Force,
            w: 30,
            h: 300,
        },
    );
    assert!(!p.crop);
    assert_eq!((p.scale_w, p.scale_h), (30, 300));
}

#[test]
fn auto_resolves_by_orientation() {
    // Landscape source, landscape target: fill.
    let p = resize_plan(
        100,
        50,
        &Resize {
            mode: ResizeMode::Auto,
            w: 40,
            h: 20,
        },
    );
    assert!(p.crop);
    // Landscape source, portrait target: fit.
    let p2 = resize_plan(
        100,
        50,
        &Resize {
            mode: ResizeMode::Auto,
            w: 20,
            h: 40,
        },
    );
    assert!(!p2.crop);
}
