use vstd::prelude::*;

use vstd::string::StringExecFns;

verus! {

/// Classified failures of the media gateway.
///
/// `BadRequest` carries a short client-facing message; `UpstreamError`
/// carries the HTTP status that the last candidate server answered with
/// (or 500 for a transport failure).  `Fetch`, `Decode` and `Io` classify
/// failures whose details are reported out of band.
#[derive(Debug, Clone, Copy, PartialEq, Eq)]
pub enum SvcError {
    BadRequest(&'static str),
    UpstreamError(u16),
    Fetch,
    Decode,
    Io,
}

/// The HTTP status code that a failure maps to in a response.
pub open spec fn spec_status_code(e: SvcError) -> u16 {
    match e {
        SvcError::BadRequest(_) => 400,
        SvcError::UpstreamError(code) => if 100 <= code < 1000 {
            code
        } else {
            502
        },
        SvcError::Fetch => 502,
        SvcError::Decode => 422,
        SvcError::Io => 500,
    }
}

impl SvcError {
    /// The status code of the response that reports this failure.
    /// An upstream status outside the representable HTTP range is
    /// reported as a bad gateway.
    pub fn status_code(&self) -> (r: u16)
        ensures
            r == spec_status_code(*self),
    {
        match self {
            SvcError::BadRequest(_) => 400,
            SvcError::UpstreamError(code) => {
                if 100 <= *code && *code < 1000 {
                    *code
                } else {
                    502
                }
            },
            SvcError::Fetch => 502,
            SvcError::Decode => 422,
            SvcError::Io => 500,
        }
    }

    /// The short human-readable body of the response that reports this
    /// failure.
    pub fn status_message(&self) -> (r: String)
        ensures
            r@ == spec_status_message(*self),
    {
        match self {
            SvcError::BadRequest(msg) => (*msg).to_owned(),
            SvcError::UpstreamError(code) => {
                if *code == 404 {
                    String::from_str("Source image not found")
                } else if *code == 403 {
                    String::from_str("Source image forbidden")
                } else {
                    let mut s = String::from_str("Upstream server returned status ");
                    let num = crate::strutil::u64_to_string(*code as u64);
                    s.append(num.as_str());
                    s
                }
            },
            SvcError::Fetch => String::from_str("Failed to fetch source image"),
            SvcError::Decode => String::from_str("Failed to decode image"),
            SvcError::Io => String::from_str("Internal server error"),
        }
    }
}

/// The response body of each failure class.
pub open spec fn spec_status_message(e: SvcError) -> Seq<char> {
    match e {
        SvcError::BadRequest(msg) => msg@,
        SvcError::UpstreamError(code) => if code == 404 {
            "Source image not found"@
        } else if code == 403 {
            "Source image forbidden"@
        } else {
            "Upstream server returned status "@ + crate::strutil::dec_of(code as int)
        },
        SvcError::Fetch => "Failed to fetch source image"@,
        SvcError::Decode => "Failed to decode image"@,
        SvcError::Io => "Internal server error"@,
    }
}

} // verus!
