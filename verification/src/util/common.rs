//! Framing of encrypted contents, and the cloud services whose tokens are kept in the
//! user's environment.

use vstd::prelude::*;

use crate::filecrypt::crypt_frame;

verus! {

/// Prefixes the encrypted contents with the UTF-8 bytes of `uuid`, moving them out of
/// `encrypted_contents`, which is left empty.
pub fn prepend_uuid(uuid: &String, encrypted_contents: &mut Vec<u8>) -> (framed: Vec<u8>)
    ensures
        framed@ == crypt_frame(uuid@, old(encrypted_contents)@),
        final(encrypted_contents)@ == Seq::<u8>::empty(),
{
    let mut uuid_bytes = vstd::slice::slice_to_vec(uuid.as_str().as_bytes());
    uuid_bytes.append(encrypted_contents);
    uuid_bytes
}

/// Cloud services.
#[derive(PartialEq, Eq, Structural, Clone, Copy)]
pub enum Cloud {
    Drive,
    Dropbox,
}

/// The name of the environment variable that holds the token of a service.
pub open spec fn token_variable(cloud: Cloud) -> Seq<char> {
    match cloud {
        Cloud::Drive => "CRYPT_DRIVE_TOKEN"@,
        Cloud::Dropbox => "CRYPT_DROPBOX_TOKEN"@,
    }
}

/// The name of the environment variable that holds the token of a service.
pub fn token_key(cloud: Cloud) -> (key: &'static str)
    ensures
        key@ == token_variable(cloud),
{
    match cloud {
        Cloud::Drive => "CRYPT_DRIVE_TOKEN",
        Cloud::Dropbox => "CRYPT_DROPBOX_TOKEN",
    }
}

} // verus!
