use imgproxy::blossom::{
    combine_server_lists, normalize_server_url, parse_pubkey, select_servers, DirEvent,
    DirectoryCache,
};
use nostr_sdk::prelude::{FromBech32, PublicKey, ToBech32};

#[test]
fn test_normalize_server_url() {
    assert_eq!(normalize_server_url("example.com"), "https://example.com");
    assert_eq!(normalize_server_url("example.com/"), "https://example.com");
    assert_eq!(
        normalize_server_url("https://example.com"),
        "https://example.com"
    );
    assert_eq!(
        normalize_server_url("https://example.com/"),
        "https://example.com"
    );
    assert_eq!(
        normalize_server_url("http://example.com"),
        "http://example.com"
    );
}

#[test]
fn test_combine_server_lists() {
    let xs = vec!["server1.com".to_string()];
    let as_s = vec!["server2.com".to_string(), "SERVER1.COM".to_string()];
    let fallback = vec!["server3.com".to_string()];

    let combined = combine_server_lists(Some(&xs), Some(&as_s), &fallback);

    assert_eq!(combined.len(), 3);
    assert_eq!(combined[0], "https://server1.com");
    assert_eq!(combined[1], "https://server2.com");
    assert_eq!(combined[2], "https://server3.com");
}

#[test]
fn normalize_is_idempotent_on_examples() {
    for u in [
        "example.com",
        "  spaced.example.com/  ",
        "https://example.com///",
        "http://UPPER.example.com/path/",
    ] {
        let once = normalize_server_url(u);
        let twice = normalize_server_url(&once);
        assert_eq!(once, twice);
    }
}

#[test]
fn normalize_degenerate_input_loses_its_scheme() {
    // Everything after the scheme was slashes: the stripped form has no
    // scheme any more, and normalizing again changes it.  Such inputs
    // are the ones the idempotence law leaves out.
    let once = normalize_server_url("https:///");
    assert_eq!(once, "https:");
    let twice = normalize_server_url(&once);
    assert_ne!(once, twice);
}

#[test]
fn combine_with_no_sources_is_empty() {
    let empty: Vec<String> = vec![];
    let combined = combine_server_lists(None, None, &empty);
    assert!(combined.is_empty());
}

#[test]
fn parse_pubkey_accepts_hex_and_bech32() {
    let hex = "3efdaebb1d8923ebd99c9e7ace3b4194ab45512e2be79c1b7d68d9243e0d2681";
    let parsed = parse_pubkey(hex).expect("hex pubkey should parse");
    assert_eq!(parsed.len(), 32);
    assert_eq!(parsed[0], 0x3e);
    assert_eq!(parsed[31], 0x81);

    // Uppercase hex is accepted too.
    let upper = hex.to_uppercase();
    assert_eq!(parse_pubkey(&upper), Some(parsed.clone()));

    // A bech32 encoding of the same key round-trips through the decoder.
    let pk = PublicKey::from_hex(hex).unwrap();
    let npub = pk.to_bech32().unwrap();
    assert_eq!(parse_pubkey(&npub), Some(parsed));
    let _ = PublicKey::from_bech32(&npub).unwrap();

    assert_eq!(parse_pubkey("not a key"), None);
    assert_eq!(parse_pubkey("abcd"), None);
}

#[test]
fn directory_cache_serves_fresh_and_expires() {
    let mut cache = DirectoryCache::new();
    let key = vec![7u8; 32];
    let servers = vec!["https://a.example".to_string()];
    cache.insert(key.clone(), servers.clone(), 1000);

    // Fresh within the TTL.
    assert_eq!(cache.lookup(&key, 1000 + 100, 3600), Some(servers.clone()));
    // Expired once the TTL has passed.
    assert_eq!(cache.lookup(&key, 1000 + 3600, 3600), None);
    // Unknown identity.
    assert_eq!(cache.lookup(&vec![9u8; 32], 1000, 3600), None);

    // Refresh overwrites rather than appends.
    let newer = vec!["https://b.example".to_string()];
    cache.insert(key.clone(), newer.clone(), 5000);
    assert_eq!(cache.entries.len(), 1);
    assert_eq!(cache.lookup(&key, 5001, 3600), Some(newer));
}

#[test]
fn select_servers_takes_newest_record() {
    let older = DirEvent {
        created_at: 100,
        tags: vec![vec!["server".to_string(), "old.example".to_string()]],
    };
    let newer = DirEvent {
        created_at: 200,
        tags: vec![
            vec!["server".to_string(), "one.example/".to_string()],
            vec!["relay".to_string(), "ignored.example".to_string()],
            vec!["server".to_string(), "two.example".to_string()],
            vec!["server".to_string()],
        ],
    };
    let servers = select_servers(&vec![older, newer]);
    assert_eq!(
        servers,
        vec![
            "https://one.example".to_string(),
            "https://two.example".to_string()
        ]
    );

    let none = select_servers(&vec![]);
    assert!(none.is_empty());
}
