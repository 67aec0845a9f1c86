//! Content fingerprinting: a stable fingerprint of raw image bytes, used as
//! the dedup key of the image history.

use vstd::prelude::*;

use sha1::Digest;
use sha1::Sha1;

verus! {

/// The lowercase hexadecimal SHA-1 digest of a byte sequence. The digest is a
/// pure function of the bytes alone; no equation for it is assumed here.
pub uninterp spec fn sha1_hex_of(bytes: Seq<u8>) -> Seq<char>;

/// Relies on `sha1::Sha1` (through the `digest` traits) and on the `LowerHex`
/// formatting of the 20-byte digest array: the digest depends on the input
/// bytes alone, and formats as two lowercase hexadecimal digits per digest
/// byte, 40 characters in all.
#[verifier::external_body]
fn sha1_hex(bytes: &Vec<u8>) -> (r: String)
    ensures
        r@ == sha1_hex_of(bytes@),
        r@.len() == 40,
{
    let mut hasher = Sha1::new();
    hasher.update(bytes.as_slice());
    format!("{:x}", hasher.finalize())
}

/// The content fingerprint of observed image bytes.
pub fn fingerprint(bytes: &Vec<u8>) -> (r: String)
    ensures
        r@ == sha1_hex_of(bytes@),
        r@.len() == 40,
{
    sha1_hex(bytes)
}

} // verus!
