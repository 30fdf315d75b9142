use crypt_core::token::{
    authorization_reply, decrypt_token, encrypt_token, expiration_after, is_current, try_decrypt_token,
    try_encrypt_token, CloudService, UserToken,
};

fn token_with(access: &str) -> UserToken {
    UserToken {
        service: CloudService::Google,
        key_seed: [3u8; 32],
        nonce_seed: [4u8; 12],
        expiration: 100,
        access_token: access.to_string(),
    }
}

#[test]
fn token_encryption_round_trips() {
    let token = token_with("ya29.a0AfH6SMBexample");
    let sealed = encrypt_token(&token, 3);
    assert_ne!(sealed, token.access_token.as_bytes().to_vec());
    assert_eq!(decrypt_token(&token, sealed.clone()), "ya29.a0AfH6SMBexample");
    assert_eq!(try_decrypt_token(&token, sealed), Some("ya29.a0AfH6SMBexample".to_string()));
}

#[test]
fn try_encrypt_token_succeeds_on_short_tokens() {
    let token = token_with("abc");
    let sealed = try_encrypt_token(&token, 3).unwrap();
    assert_eq!(try_decrypt_token(&token, sealed), Some("abc".to_string()));
}

#[test]
fn try_decrypt_token_refuses_another_key() {
    let token = token_with("abc");
    let sealed = encrypt_token(&token, 3);
    let mut other = token_with("abc");
    other.key_seed = [5u8; 32];
    assert_eq!(try_decrypt_token(&other, sealed), None);
}

#[test]
fn service_names_round_trip() {
    assert_eq!(CloudService::Google.to_string(), "Google");
    assert_eq!(CloudService::Dropbox.to_string(), "DropBox");
    assert!(CloudService::parse("Google") == Some(CloudService::Google));
    assert!(CloudService::parse("DropBox") == Some(CloudService::Dropbox));
    assert!(CloudService::parse("dropbox").is_none());
}

#[test]
fn default_token_is_empty_google() {
    let token = UserToken::default();
    assert!(token.service == CloudService::Google);
    assert_eq!(token.key_seed, [0u8; 32]);
    assert_eq!(token.nonce_seed, [0u8; 12]);
    assert_eq!(token.expiration, 0);
    assert_eq!(token.access_token, "");
    assert!(CloudService::default() == CloudService::Google);
}

#[test]
fn tokens_expire_at_their_expiration() {
    let token = token_with("a");
    assert!(is_current(&token, 99));
    assert!(!is_current(&token, 100));
    assert_eq!(expiration_after(1_700_000_000, 3599), Some(1_700_003_599));
    assert_eq!(expiration_after(u64::MAX, 1), None);
}

#[test]
fn authorization_reply_reads_code_and_state() {
    let reply = authorization_reply("GET /?state=xyz&code=4%2F0Ab&scope=drive HTTP/1.1\r\n");
    assert_eq!(reply, Some(("4/0Ab".to_string(), "xyz".to_string())));
}

#[test]
fn authorization_reply_needs_both_values() {
    assert_eq!(authorization_reply("GET /?code=abc HTTP/1.1"), None);
    assert_eq!(authorization_reply("GET"), None);
}
