//! Tests for the OAuth 1.0a signer: nonce shape, percent-encoding,
//! canonical parameter ordering, signature determinism, and header shape.

use x_mcp_server::auth::{generate_nonce, AuthStrategy, OAuthCredentials};
use x_mcp_server::encoding::{percent_decode_bytes, percent_encode, percent_encode_bytes};
use x_mcp_server::params::ParamMap;

fn creds(ck: &str, cs: &str, at: &str, ats: &str) -> OAuthCredentials {
    OAuthCredentials::new(ck.to_string(), cs.to_string(), at.to_string(), ats.to_string())
}

fn count_occurrences(haystack: &str, needle: &str) -> usize {
    let mut count = 0;
    let mut start = 0;
    while let Some(pos) = haystack[start..].find(needle) {
        count += 1;
        start += pos + needle.len();
    }
    count
}

#[test]
fn test_nonce_generation() {
    let nonce1 = generate_nonce();
    let nonce2 = generate_nonce();

    assert_eq!(nonce1.len(), 32);
    assert_eq!(nonce2.len(), 32);
    assert_ne!(nonce1, nonce2);
}

#[test]
fn test_percent_encoding() {
    assert_eq!(percent_encode("hello world"), "hello%20world");
    assert_eq!(percent_encode("test@example.com"), "test%40example.com");
}

#[test]
fn test_oauth_credentials_creation() {
    let creds = OAuthCredentials::new(
        "test_key".to_string(),
        "test_secret".to_string(),
        "test_token".to_string(),
        "test_token_secret".to_string(),
    );

    assert_eq!(creds.consumer_key, "test_key");
    assert_eq!(creds.consumer_secret, "test_secret");
    assert_eq!(creds.access_token, "test_token");
    assert_eq!(creds.access_token_secret, "test_token_secret");
}

#[test]
fn test_nonce_alphabet_many_draws() {
    let mut seen = Vec::new();
    for _ in 0..50 {
        let nonce = generate_nonce();
        assert_eq!(nonce.len(), 32);
        assert!(nonce.chars().all(|c| c.is_ascii_alphanumeric()));
        assert!(!seen.contains(&nonce));
        seen.push(nonce);
    }
}

#[test]
fn test_percent_round_trip_unicode() {
    for s in ["", "plain", "hello world", "caf\u{e9} au lait", "\u{4e16}\u{754c} & more?", "a=b&c=d%"] {
        let encoded = percent_encode_bytes(s.as_bytes());
        let decoded = percent_decode_bytes(&encoded).expect("decoding an encoding succeeds");
        assert_eq!(decoded, s.as_bytes());
    }
}

#[test]
fn test_percent_decode_rejects_truncated_escape() {
    assert!(percent_decode_bytes(b"abc%2").is_none());
    assert!(percent_decode_bytes(b"abc%zz").is_none());
    assert_eq!(percent_decode_bytes(b"abc%2F").unwrap(), b"abc/");
    assert_eq!(percent_decode_bytes(b"abc%2f").unwrap(), b"abc/");
}

#[test]
fn test_param_string_canonical_order() {
    let mut forward = ParamMap::new();
    forward.insert(b"a".to_vec(), b"1".to_vec());
    forward.insert(b"b".to_vec(), b"2".to_vec());

    let mut backward = ParamMap::new();
    backward.insert(b"b".to_vec(), b"2".to_vec());
    backward.insert(b"a".to_vec(), b"1".to_vec());

    assert_eq!(forward.param_string(), b"a=1&b=2".to_vec());
    assert_eq!(backward.param_string(), b"a=1&b=2".to_vec());
}

#[test]
fn test_param_map_insert_replaces() {
    let mut m = ParamMap::new();
    m.insert(b"k".to_vec(), b"old".to_vec());
    m.insert(b"k".to_vec(), b"new".to_vec());
    assert_eq!(m.len(), 1);
    assert_eq!(m.param_string(), b"k=new".to_vec());
}

#[test]
fn test_signature_deterministic_and_sensitive() {
    let c = creds("key", "secret", "token", "token_secret");
    let mut params = ParamMap::new();
    params.insert(b"q".to_vec(), b"rust".to_vec());
    let nonce = b"AAAABBBBCCCCDDDDEEEEFFFFGGGGHHHH".to_vec();

    let h1 = c
        .generate_auth_header_at("get", "https://api.twitter.com/2/x", &params, &nonce, 1318622958)
        .unwrap();
    let h2 = c
        .generate_auth_header_at("get", "https://api.twitter.com/2/x", &params, &nonce, 1318622958)
        .unwrap();
    assert_eq!(h1, h2);

    // Changing any one input changes the header.
    let h3 = c
        .generate_auth_header_at("get", "https://api.twitter.com/2/y", &params, &nonce, 1318622958)
        .unwrap();
    assert_ne!(h1, h3);
    let h4 = c
        .generate_auth_header_at("get", "https://api.twitter.com/2/x", &params, &nonce, 1318622959)
        .unwrap();
    assert_ne!(h1, h4);
    let c2 = creds("key", "secret2", "token", "token_secret");
    let h5 = c2
        .generate_auth_header_at("get", "https://api.twitter.com/2/x", &params, &nonce, 1318622958)
        .unwrap();
    assert_ne!(h1, h5);
    let mut params2 = ParamMap::new();
    params2.insert(b"q".to_vec(), b"rusty".to_vec());
    let h6 = c
        .generate_auth_header_at("get", "https://api.twitter.com/2/x", &params2, &nonce, 1318622958)
        .unwrap();
    assert_ne!(h1, h6);
}

#[test]
fn test_known_signature_vector() {
    // The worked example from the X (Twitter) developer documentation on
    // creating an OAuth 1.0a signature.
    let c = creds(
        "xvz1evFS4wEEPTGEFPHBog",
        "kAcSOqF21Fu85e7zjz7ZN2U4ZRhfV3WpwPAoE3Z7kBw",
        "370773112-GmHxMAgYyLbNEtIKZeRNFsMKPR9EyMZeS9weJAEb",
        "LswwdoUaIvS8ltyTt5jkRh4J50vUPVVHtR2YPi5kE",
    );
    let mut params = ParamMap::new();
    params.insert(b"include_entities".to_vec(), b"true".to_vec());
    params.insert(
        b"status".to_vec(),
        b"Hello Ladies + Gentlemen, a signed OAuth request!".to_vec(),
    );
    let nonce = b"kYjzVBB8Y0ZFabxSWbWovY3uYSQ2pTgmZeNu2VS4cg".to_vec();
    let header = c
        .generate_auth_header_at(
            "post",
            "https://api.twitter.com/1.1/statuses/update.json",
            &params,
            &nonce,
            1318622958,
        )
        .unwrap();
    assert!(header.contains("oauth_signature=\"hCtSmYh%2BiHYCEqBWrE7C7hYmtUk%3D\""));
}

#[test]
fn test_header_shape() {
    let c = creds("key", "secret", "token", "token_secret");
    let params = ParamMap::new();
    let header = c.generate_auth_header("GET", "https://api.twitter.com/2/users/1", &params).unwrap();

    assert!(header.starts_with("OAuth "));
    assert_eq!(count_occurrences(&header, "oauth_consumer_key=\""), 1);
    assert_eq!(count_occurrences(&header, "oauth_nonce=\""), 1);
    assert_eq!(count_occurrences(&header, "oauth_signature=\""), 1);
    assert_eq!(count_occurrences(&header, "oauth_signature_method=\""), 1);
    assert_eq!(count_occurrences(&header, "oauth_timestamp=\""), 1);
    assert_eq!(count_occurrences(&header, "oauth_token=\""), 1);
    assert_eq!(count_occurrences(&header, "oauth_version=\""), 1);
    assert_eq!(count_occurrences(&header, "oauth_"), 7);
    assert_eq!(count_occurrences(&header, "=\""), 7);
    assert!(header.contains("oauth_signature_method=\"HMAC-SHA1\""));
    assert!(header.contains("oauth_version=\"1.0\""));
}

#[test]
fn test_empty_secret_rejected() {
    let c = creds("key", "", "token", "token_secret");
    let params = ParamMap::new();
    assert!(c.generate_auth_header("GET", "https://api.twitter.com/2/x", &params).is_err());
    let c2 = creds("key", "secret", "token", "");
    assert!(c2.generate_auth_header("GET", "https://api.twitter.com/2/x", &params).is_err());
}

#[test]
fn test_bearer_strategy() {
    let strategy = AuthStrategy::BearerToken("SECRET-REDACTED".to_string());
    let params = ParamMap::new();
    let header = strategy.auth_header("GET", "https://api.twitter.com/2/x", &params).unwrap();
    assert_eq!(header, "Bearer SECRET-REDACTED");
}
