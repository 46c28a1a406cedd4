use vstd::prelude::*;

use sha2::Digest;

verus! {

/// The lowercase hexadecimal SHA-256 digest of `bytes`.
pub uninterp spec fn spec_sha256_hex(bytes: Seq<u8>) -> Seq<char>;

/// Calls `sha2::Sha256` on `bytes` and formats the digest as lowercase hex;
/// the text is named by the bytes alone.
#[verifier::external_body]
pub(crate) fn sha256_hex(bytes: &[u8]) -> (h: String)
    ensures
        h@ == spec_sha256_hex(bytes@),
{
    let mut hasher = sha2::Sha256::new();
    hasher.update(bytes);
    format!("{:x}", hasher.finalize())
}

/// The digest of a text is the digest of its UTF-8 bytes.
pub fn sha256_hex_of_str(text: &str) -> (h: String)
    ensures
        h@ == spec_sha256_hex(vstd::utf8::encode_utf8(text@)),
{
    sha256_hex(text.as_bytes())
}

} // verus!
