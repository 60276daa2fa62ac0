//! The SHA-256 digest of a style sheet, as a Content Security Policy names it.

use sha2::Digest;
use vstd::prelude::*;

verus! {

/// The SHA-256 digest of `bytes`.
pub uninterp spec fn sha256(bytes: Seq<u8>) -> Seq<u8>;

/// `bytes` in base64, standard alphabet, with padding.
pub uninterp spec fn base64(bytes: Seq<u8>) -> Seq<char>;

/// The source expression that allows an inline style with this content.
pub open spec fn style_hash_of(content: Seq<u8>) -> Seq<char> {
    "'sha256-"@ + base64(sha256(content)) + "'"@
}

/// `sha2::Sha256::digest`: the 32 bytes of the digest.
#[verifier::external_body]
pub(crate) fn sha256_digest(bytes: &[u8]) -> (digest: Vec<u8>)
    ensures
        digest@ == sha256(bytes@),
        digest@.len() == 32,
{
    sha2::Sha256::digest(bytes).to_vec()
}

/// `base64::Engine::encode` of the standard engine: standard alphabet, padded
/// with `=`.
#[verifier::external_body]
pub(crate) fn base64_encode(bytes: &[u8]) -> (encoded: String)
    ensures
        encoded@ == base64(bytes@),
{
    base64::Engine::encode(&base64::engine::general_purpose::STANDARD, bytes)
}

/// The source expression `'sha256-...'` for an inline style with this content.
pub fn style_hash(content: &[u8]) -> (hash: String)
    ensures
        hash@ == style_hash_of(content@),
{
    let digest = sha256_digest(content);
    let encoded = base64_encode(digest.as_slice());
    let mut hash = String::from_str("'sha256-");
    hash.append(encoded.as_str());
    hash.append("'");
    hash
}

} // verus!
