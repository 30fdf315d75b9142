//! Framing of encrypted contents.

use vstd::prelude::*;

use crate::filecrypt::crypt_frame;

verus! {

/// Prefixes the encrypted contents with the UTF-8 bytes of `uuid`, moving them out of
/// `encrypted_contents`, which is left empty.
pub fn prepend_uuid(uuid: &String, encrypted_contents: &mut Vec<u8>) -> (framed: Vec<u8>)
    ensures
        framed@ == crypt_frame(uuid@, old(encrypted_contents)@),
        final(encrypted_contents)@ == Seq::<u8>::empty(),
{
    crate::util::common::prepend_uuid(uuid, encrypted_contents)
}

} // verus!
