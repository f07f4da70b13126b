use vstd::prelude::*;

use vstd::string::StringExecFns;

verus! {

/// The gateway's configuration, read once at startup and passed around as
/// an immutable value.  Durations are carried in whole seconds.
#[derive(Debug, Clone)]
pub struct AppCfg {
    pub bind_addr: String,
    pub cache_dir: String,
    pub cache_ttl_secs: u64,
    pub fetch_timeout_secs: u64,
    pub max_image_bytes: usize,
    pub blossom_fallback_servers: Vec<String>,
}

/// The static fallback content servers used when a request brings no
/// hints and the directory lookup yields nothing.
pub fn default_fallback_servers() -> (r: Vec<String>)
    ensures
        r.deep_view() =~= seq![
            "https://cdn.satellite.earth"@,
            "https://image.nostr.build"@,
            "https://nostr.download"@,
            "https://cdn.hzrd149.com"@,
        ],
{
    let mut v: Vec<String> = Vec::new();
    v.push(String::from_str("https://cdn.satellite.earth"));
    v.push(String::from_str("https://image.nostr.build"));
    v.push(String::from_str("https://nostr.download"));
    v.push(String::from_str("https://cdn.hzrd149.com"));
    v
}

} // verus!
