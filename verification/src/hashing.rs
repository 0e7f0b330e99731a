//! stable content hashing of source documents.

use vstd::prelude::*;

use vstd::utf8::encode_utf8;

use crate::text::{canonical_text, canonicalize_raw, hex_lower, owned, push_char, push_str, to_hex_lower};

verus! {

/// the SHA-256 digest of `data`.
pub uninterp spec fn sha256_digest(data: Seq<u8>) -> Seq<u8>;

/// `<sha2::Sha256 as sha2::Digest>::digest`: the 32-byte SHA-256 digest of
/// `data`, named by `sha256_digest`.
#[verifier::external_body]
pub(crate) fn sha256(data: &[u8]) -> (r: Vec<u8>)
    ensures
        r@ == sha256_digest(data@),
        r@.len() == 32,
{
    <sha2::Sha256 as sha2::Digest>::digest(data).to_vec()
}

/// the text that is hashed for a source: the target, a newline, and the
/// canonical source text.
pub open spec fn hashed_text(target: Seq<char>, raw: Seq<char>) -> Seq<char> {
    target.push('\n') + canonical_text(raw)
}

/// the lowercase hex SHA-256 of the UTF-8 bytes of `hashed_text(target, raw)`.
pub open spec fn source_hash(target: Seq<char>, raw: Seq<char>) -> Seq<char> {
    hex_lower(sha256_digest(encode_utf8(hashed_text(target, raw))))
}

/// hashes canonicalized source content with target context for stable identity.
pub fn hash_source_content(target: &str, raw: &str) -> (r: String)
    ensures
        r@ == source_hash(target@, raw@),
{
    let mut text = owned(target);
    push_char(&mut text, '\n');
    let canonical = canonicalize_raw(raw);
    push_str(&mut text, canonical.as_str());
    let digest = sha256(text.as_str().as_bytes());
    to_hex_lower(digest.as_slice())
}

/// a source hashes the same whether its line ends are LF or CRLF.
pub proof fn law_source_hash_ignores_crlf(target: Seq<char>, raw: Seq<char>)
    ensures
        source_hash(target, crate::text::to_crlf(raw)) == source_hash(target, raw),
{
    crate::text::law_canonical_text_ignores_crlf(raw);
}

} // verus!
