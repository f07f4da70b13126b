use vstd::prelude::*;

use vstd::string::StringExecFns;

use crate::strutil::{ends_with_str, lower_seq, lower_str, seq_ends_with};

verus! {

/// Whether a URL names a video, by file extension (case-insensitive).
/// Everything else is treated as an image and decoded by content.
pub open spec fn spec_is_video_url(url: Seq<char>) -> bool {
    let l = lower_seq(url);
    ||| seq_ends_with(l, ".mp4"@)
    ||| seq_ends_with(l, ".mov"@)
    ||| seq_ends_with(l, ".avi"@)
    ||| seq_ends_with(l, ".webm"@)
    ||| seq_ends_with(l, ".mkv"@)
    ||| seq_ends_with(l, ".flv"@)
    ||| seq_ends_with(l, ".wmv"@)
    ||| seq_ends_with(l, ".m4v"@)
    ||| seq_ends_with(l, ".mpg"@)
    ||| seq_ends_with(l, ".mpeg"@)
    ||| seq_ends_with(l, ".3gp"@)
    ||| seq_ends_with(l, ".ogv"@)
}

/// Check whether a URL is likely a video, by its file extension.
pub fn is_video_url(url: &str) -> (r: bool)
    ensures
        r == spec_is_video_url(url@),
{
    let l = lower_str(url);
    let s = l.as_str();
    ends_with_str(s, ".mp4") || ends_with_str(s, ".mov") || ends_with_str(s, ".avi")
        || ends_with_str(s, ".webm") || ends_with_str(s, ".mkv") || ends_with_str(s, ".flv")
        || ends_with_str(s, ".wmv") || ends_with_str(s, ".m4v") || ends_with_str(s, ".mpg")
        || ends_with_str(s, ".mpeg") || ends_with_str(s, ".3gp") || ends_with_str(s, ".ogv")
}

/// The argument list handed to the external video tool, before the
/// output path: seek half a second in, take one frame, cap the height at
/// 720 keeping the aspect ratio, encode a lossy still at quality 80,
/// overwrite the output.
pub open spec fn spec_extract_args(video_url: Seq<char>) -> Seq<Seq<char>> {
    seq![
        "-ss"@,
        "0.5"@,
        "-i"@,
        video_url,
        "-vframes"@,
        "1"@,
        "-vf"@,
        "scale=-1:'min(720,ih)'"@,
        "-q:v"@,
        "80"@,
        "-c:v"@,
        "libwebp"@,
        "-f"@,
        "image2"@,
        "-y"@,
    ]
}

/// Build the external tool's argument list for one extraction; the
/// caller appends its private output path and runs the tool.
pub fn extract_args(video_url: &str) -> (r: Vec<String>)
    ensures
        r.deep_view() == spec_extract_args(video_url@),
{
    let mut v: Vec<String> = Vec::new();
    v.push(String::from_str("-ss"));
    v.push(String::from_str("0.5"));
    v.push(String::from_str("-i"));
    v.push(video_url.to_owned());
    v.push(String::from_str("-vframes"));
    v.push(String::from_str("1"));
    v.push(String::from_str("-vf"));
    v.push(String::from_str("scale=-1:'min(720,ih)'"));
    v.push(String::from_str("-q:v"));
    v.push(String::from_str("80"));
    v.push(String::from_str("-c:v"));
    v.push(String::from_str("libwebp"));
    v.push(String::from_str("-f"));
    v.push(String::from_str("image2"));
    v.push(String::from_str("-y"));
    proof {
        assert(v.deep_view() =~= spec_extract_args(video_url@));
    }
    v
}

} // verus!
