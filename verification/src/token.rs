//! Cloud services, and the user tokens that grant access to them. An access token is
//! kept encrypted: compressed, then encrypted with the token's own key and nonce.

use vstd::prelude::*;

use vstd::utf8::{decode_utf8, encode_utf8, valid_utf8};

use crate::encryption::{
    chacha20poly1305_accepts, chacha20poly1305_decrypt, chacha20poly1305_encrypt,
    chacha20poly1305_opened, chacha20poly1305_sealed, compress, decompress, zstd_decoded, zstd_encoded,
    KEY_SIZE, NONCE_SIZE,
};
use crate::filecrypt::string_from_utf8;
use crate::util::text::{chars_of, word_ranges, words};

verus! {

broadcast use vstd::utf8::group_utf8_lib;

/// Supported cloud platforms.
#[derive(PartialEq, Eq, Structural, Clone, Copy)]
pub enum CloudService {
    Google,
    Dropbox,
}

/// Supported tasks for cloud platforms.
pub enum CloudTask {
    Upload,
    Download,
    View,
}

/// The name of each cloud service.
pub open spec fn service_name(service: CloudService) -> Seq<char> {
    match service {
        CloudService::Google => "Google"@,
        CloudService::Dropbox => "DropBox"@,
    }
}

/// The service that a name names.
pub open spec fn service_of_name(name: Seq<char>) -> Option<CloudService> {
    if name == service_name(CloudService::Google) {
        Some(CloudService::Google)
    } else if name == service_name(CloudService::Dropbox) {
        Some(CloudService::Dropbox)
    } else {
        None
    }
}

impl CloudService {
    /// The name of the service: "Google" or "DropBox".
    pub fn to_string(&self) -> (name: String)
        ensures
            name@ == service_name(*self),
    {
        match self {
            CloudService::Google => String::from_str("Google"),
            CloudService::Dropbox => String::from_str("DropBox"),
        }
    }

    /// The service of a name ("Google" or "DropBox"), or `None` for any other text.
    pub fn parse(service: &str) -> (r: Option<CloudService>)
        ensures
            r == service_of_name(service@),
    {
        let name = String::from_str(service);
        if name == String::from_str("Google") {
            Some(CloudService::Google)
        } else if name == String::from_str("DropBox") {
            Some(CloudService::Dropbox)
        } else {
            None
        }
    }
}

/// Each service is found again from its name: `parse` undoes `to_string`.
pub proof fn lemma_service_name_roundtrip(service: CloudService)
    ensures
        service_of_name(service_name(service)) == Some(service),
{
    reveal_strlit("Google");
    reveal_strlit("DropBox");
    assert(service_name(CloudService::Google)[0] != service_name(CloudService::Dropbox)[0]);
}

/// User authentication information for a cloud service.
pub struct UserToken {
    /// The platform the token is used for.
    pub service: CloudService,
    /// Key that encrypts the access token.
    pub key_seed: [u8; KEY_SIZE],
    /// Nonce that encrypts the access token.
    pub nonce_seed: [u8; NONCE_SIZE],
    /// Expiration time, in seconds since the Unix epoch.
    pub expiration: u64,
    /// Grants access to the user account.
    pub access_token: String,
}

/// The encrypted form of the access token of `user_token`: its UTF-8 bytes compressed
/// at `level`, then encrypted under the token's key and nonce.
pub open spec fn sealed_token(user_token: UserToken, level: i32) -> Seq<u8> {
    chacha20poly1305_sealed(
        user_token.key_seed@,
        user_token.nonce_seed@,
        zstd_encoded(encode_utf8(user_token.access_token@), level),
    )
}

/// Whether the compressed access token is short enough to be encrypted.
pub open spec fn token_encryptable(user_token: UserToken, level: i32) -> bool {
    chacha20poly1305_accepts(zstd_encoded(encode_utf8(user_token.access_token@), level).len())
}

/// The access token recovered from its encrypted form: decrypted under the key and
/// nonce of `user_token`, decompressed, and read as UTF-8; `None` where a step fails.
pub open spec fn opened_token(user_token: UserToken, encrypted: Seq<u8>) -> Option<Seq<char>> {
    match chacha20poly1305_opened(user_token.key_seed@, user_token.nonce_seed@, encrypted) {
        None => None,
        Some(compressed) => match zstd_decoded(compressed) {
            None => None,
            Some(bytes) => if valid_utf8(bytes) {
                Some(decode_utf8(bytes))
            } else {
                None
            },
        },
    }
}

/// Encrypts the access token of `user_token`, compressed at `zstd_level`.
pub fn encrypt_token(user_token: &UserToken, zstd_level: i32) -> (encrypted: Vec<u8>)
    requires
        token_encryptable(*user_token, zstd_level),
    ensures
        encrypted@ == sealed_token(*user_token, zstd_level),
{
    let token = user_token.access_token.as_str().as_bytes();
    let compressed_token = compress(token, zstd_level);
    match chacha20poly1305_encrypt(&user_token.key_seed, &user_token.nonce_seed, compressed_token.as_slice()) {
        Ok(cipher) => cipher,
        Err(_) => {
            proof {
                assert(false);
            }
            Vec::new()
        },
    }
}

/// Encrypts the access token as `encrypt_token` does, or returns `None` where the
/// compressed token is too long for the cipher.
pub fn try_encrypt_token(user_token: &UserToken, zstd_level: i32) -> (r: Option<Vec<u8>>)
    ensures
        r is Some <==> token_encryptable(*user_token, zstd_level),
        r matches Some(encrypted) ==> encrypted@ == sealed_token(*user_token, zstd_level),
{
    let compressed_token = compress(user_token.access_token.as_str().as_bytes(), zstd_level);
    if compressed_token.len() / 64 < 0xffff_ffff {
        Some(encrypt_token(user_token, zstd_level))
    } else {
        None
    }
}

/// Decrypts an encrypted access token with the key and nonce of `user_token`.
pub fn decrypt_token(user_token: &UserToken, access_token: Vec<u8>) -> (token: String)
    requires
        opened_token(*user_token, access_token@) is Some,
    ensures
        opened_token(*user_token, access_token@) == Some(token@),
{
    let cipher = match chacha20poly1305_decrypt(&user_token.key_seed, &user_token.nonce_seed, access_token.as_slice()) {
        Ok(c) => c,
        Err(_) => {
            proof {
                assert(false);
            }
            return String::new();
        },
    };
    let decompressed_token = match decompress(cipher.as_slice()) {
        Ok(d) => d,
        Err(_) => {
            proof {
                assert(false);
            }
            return String::new();
        },
    };
    match string_from_utf8(decompressed_token) {
        Some(token) => token,
        None => {
            proof {
                assert(false);
            }
            String::new()
        },
    }
}

/// Decrypts an encrypted access token as `decrypt_token` does, or returns `None` where
/// it does not authenticate, decompress, or read as UTF-8. A token encrypted by
/// `encrypt_token` with the same key and nonce is recovered unchanged.
pub fn try_decrypt_token(user_token: &UserToken, access_token: Vec<u8>) -> (r: Option<String>)
    ensures
        r is Some <==> opened_token(*user_token, access_token@) is Some,
        r matches Some(token) ==> opened_token(*user_token, access_token@) == Some(token@),
        forall|level: i32|
            access_token@ == #[trigger] sealed_token(*user_token, level) && token_encryptable(*user_token, level)
                ==> (r matches Some(token) && token@ == user_token.access_token@),
{
    let cipher = match chacha20poly1305_decrypt(&user_token.key_seed, &user_token.nonce_seed, access_token.as_slice()) {
        Ok(c) => c,
        Err(_) => return None,
    };
    let decompressed = match decompress(cipher.as_slice()) {
        Ok(d) => d,
        Err(_) => {
            proof {
                assert forall|level: i32|
                    access_token@ == #[trigger] sealed_token(*user_token, level) && token_encryptable(*user_token, level)
                    implies false by {
                    assert(cipher@ == zstd_encoded(encode_utf8(user_token.access_token@), level));
                }
            }
            return None;
        },
    };
    if string_from_utf8(decompressed.clone()).is_none() {
        proof {
            assert forall|level: i32|
                access_token@ == #[trigger] sealed_token(*user_token, level) && token_encryptable(*user_token, level)
                implies false by {
                assert(cipher@ == zstd_encoded(encode_utf8(user_token.access_token@), level));
                assert(decompressed@ == encode_utf8(user_token.access_token@));
            }
        }
        return None;
    }
    let token = decrypt_token(user_token, access_token);
    proof {
        assert forall|level: i32|
            access_token@ == #[trigger] sealed_token(*user_token, level) && token_encryptable(*user_token, level)
            implies token@ == user_token.access_token@ by {
            assert(cipher@ == zstd_encoded(encode_utf8(user_token.access_token@), level));
            assert(decompressed@ == encode_utf8(user_token.access_token@));
        }
    }
    Some(token)
}


impl Default for CloudService {
    /// Google.
    fn default() -> (service: Self)
        ensures
            service == CloudService::Google,
    {
        CloudService::Google
    }
}

impl Default for UserToken {
    /// A Google token with zero key, nonce and expiration, and no access token.
    fn default() -> (token: Self)
        ensures
            token.service == CloudService::Google,
            token.key_seed@ == Seq::new(KEY_SIZE as nat, |i: int| 0u8),
            token.nonce_seed@ == Seq::new(NONCE_SIZE as nat, |i: int| 0u8),
            token.expiration == 0,
            token.access_token@ == Seq::<char>::empty(),
    {
        let token = UserToken {
            service: CloudService::Google,
            key_seed: [0u8; KEY_SIZE],
            nonce_seed: [0u8; NONCE_SIZE],
            expiration: 0,
            access_token: String::new(),
        };
        assert(token.key_seed@ =~= Seq::new(KEY_SIZE as nat, |i: int| 0u8));
        assert(token.nonce_seed@ =~= Seq::new(NONCE_SIZE as nat, |i: int| 0u8));
        token
    }
}

/// Whether a stored token is still current at `now` (seconds since the Unix epoch):
/// its expiration lies after `now`.
pub fn is_current(user_token: &UserToken, now: u64) -> (current: bool)
    ensures
        current == (user_token.expiration > now),
{
    user_token.expiration > now
}

/// The expiration of a token granted at `now` for `expires_in` seconds; `None` where
/// the sum does not fit in 64 bits.
pub fn expiration_after(now: u64, expires_in: u64) -> (expiration: Option<u64>)
    ensures
        expiration is Some <==> now + expires_in <= u64::MAX,
        expiration matches Some(e) ==> e == now + expires_in,
{
    now.checked_add(expires_in)
}

/// The decoded query pairs of a URL's text, in order, as `url::Url::parse` and
/// `Url::query_pairs` give them; `None` where the text is not a URL.
pub uninterp spec fn url_query_pairs(text: Seq<char>) -> Option<Seq<(Seq<char>, Seq<char>)>>;

/// Calls `url::Url::parse` and collects `Url::query_pairs` as owned strings.
/// Claimed: the result is named by `url_query_pairs`.
#[verifier::external_body]
fn query_pairs(text: &str) -> (pairs: Option<Vec<(String, String)>>)
    ensures
        pairs is Some <==> url_query_pairs(text@) is Some,
        pairs matches Some(v) ==> v@.map_values(|p: (String, String)| (p.0@, p.1@)) == url_query_pairs(text@)->Some_0,
{
    match url::Url::parse(text) {
        Ok(url) => Some(url.query_pairs().map(|(k, v)| (k.into_owned(), v.into_owned())).collect()),
        Err(_) => None,
    }
}

/// The value of the first pair of `pairs` whose key is `key`.
pub open spec fn first_value(pairs: Seq<(Seq<char>, Seq<char>)>, key: Seq<char>) -> Option<Seq<char>>
    decreases pairs.len(),
{
    if pairs.len() == 0 {
        None
    } else if pairs[0].0 == key {
        Some(pairs[0].1)
    } else {
        first_value(pairs.drop_first(), key)
    }
}

/// The authorisation code and state that the browser's redirect carries: the second
/// word of the request line is the path of the redirect, read as a URL of
/// `http://localhost`, and the values of its first `code` and first `state` query
/// parameters. `None` where any of these is missing.
pub open spec fn authorization_in(request_line: Seq<char>) -> Option<(Seq<char>, Seq<char>)> {
    let w = words(request_line);
    if w.len() < 2 {
        None
    } else {
        match url_query_pairs("http://localhost"@ + w[1]) {
            None => None,
            Some(pairs) => match (first_value(pairs, "code"@), first_value(pairs, "state"@)) {
                (Some(code), Some(state)) => Some((code, state)),
                _ => None,
            },
        }
    }
}

/// The value of the first pair whose key is `key`.
fn find_value(pairs: &Vec<(String, String)>, key: &str) -> (value: Option<String>)
    ensures
        value is Some <==> first_value(pairs@.map_values(|p: (String, String)| (p.0@, p.1@)), key@) is Some,
        value matches Some(v) ==> first_value(pairs@.map_values(|p: (String, String)| (p.0@, p.1@)), key@) == Some(v@),
{
    let ghost all = pairs@.map_values(|p: (String, String)| (p.0@, p.1@));
    let target = String::from_str(key);
    let mut i: usize = 0;
    assert(all.skip(0) =~= all);
    while i < pairs.len()
        invariant
            all == pairs@.map_values(|p: (String, String)| (p.0@, p.1@)),
            target@ == key@,
            0 <= i <= pairs@.len(),
            first_value(all, key@) == first_value(all.skip(i as int), key@),
        decreases pairs@.len() - i,
    {
        assert(all.skip(i as int)[0] == (pairs@[i as int].0@, pairs@[i as int].1@));
        if pairs[i].0 == target {
            return Some(pairs[i].1.clone());
        }
        assert(all.skip(i as int).drop_first() =~= all.skip(i + 1));
        i += 1;
    }
    assert(all.skip(i as int) =~= Seq::<(Seq<char>, Seq<char>)>::empty());
    None
}

/// Reads the authorisation code and state from the request line of the browser's
/// redirect.
pub fn authorization_reply(request_line: &str) -> (reply: Option<(String, String)>)
    ensures
        reply is Some <==> authorization_in(request_line@) is Some,
        reply matches Some((code, state)) ==> authorization_in(request_line@) == Some((code@, state@)),
{
    let chars = chars_of(request_line);
    let bounds = word_ranges(&chars);
    assert(chars@.take(chars@.len() as int) =~= chars@);
    if bounds.len() < 2 {
        return None;
    }
    let (a, b) = bounds[1];
    let mut url = String::from_str("http://localhost");
    url.append(request_line.substring_char(a, b));
    let pairs = match query_pairs(url.as_str()) {
        Some(pairs) => pairs,
        None => return None,
    };
    proof {
        reveal_strlit("code");
        reveal_strlit("state");
    }
    let code = match find_value(&pairs, "code") {
        Some(code) => code,
        None => return None,
    };
    let state = match find_value(&pairs, "state") {
        Some(state) => state,
        None => return None,
    };
    Some((code, state))
}

} // verus!
