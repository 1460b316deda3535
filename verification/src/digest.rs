//! Content addressing: a page body's digest names its blob file.

use vstd::prelude::*;
use vstd::string::StringExecFns;

verus! {

/// The BLAKE3 digest of a byte sequence. Named, not written out: the digest
/// is a function of the input bytes alone, computed by the outside hasher.
pub uninterp spec fn blake3_of(bytes: Seq<u8>) -> Seq<u8>;

/// The lower-case hexadecimal digit for a nibble. Code point 48 is `0`;
/// code point 87 + 10 is `a`.
pub open spec fn hex_digit(n: u8) -> char {
    if n < 10 {
        (48 + n) as char
    } else {
        (87 + n) as char
    }
}

/// Lower-case hexadecimal encoding, two digits per byte, high nibble first.
pub open spec fn hex_of(bytes: Seq<u8>) -> Seq<char> {
    Seq::new(
        bytes.len() * 2,
        |i: int|
            if i % 2 == 0 {
                hex_digit(bytes[i / 2] >> 4u8)
            } else {
                hex_digit(bytes[i / 2] & 0x0fu8)
            },
    )
}

/// The content digest of a page body: the hex form of its BLAKE3 hash.
pub open spec fn digest_spec(body: Seq<char>) -> Seq<char> {
    hex_of(blake3_of(vstd::utf8::encode_utf8(body)))
}

/// The blob file that a page body with digest `hash` is stored under.
pub open spec fn blob_name_spec(hash: Seq<char>) -> Seq<char> {
    hash + ".html"@
}

/// Relies on blake3::hash: the digest is 32 bytes and depends on the input
/// bytes alone; a fresh hasher updated with the same bytes yields it too.
#[verifier::external_body]
fn blake3_hash(data: &[u8]) -> (r: Vec<u8>)
    ensures
        r@ == blake3_of(data@),
        r@.len() == 32,
{
    blake3::hash(data).as_bytes().to_vec()
}

/// Relies on hex::encode: two lower-case hexadecimal digits per input byte,
/// high nibble first.
#[verifier::external_body]
fn hex_encode(data: &Vec<u8>) -> (r: String)
    ensures
        r@ == hex_of(data@),
{
    hex::encode(data)
}

/// Computes the content digest of a page body: 64 lower-case hex digits.
pub fn content_digest(body: &str) -> (r: String)
    ensures
        r@ == digest_spec(body@),
        r@.len() == 64,
{
    let hash = blake3_hash(body.as_bytes());
    let digest = hex_encode(&hash);
    digest
}

/// Appends the blob extension to a digest to form the stored file name.
pub fn blob_name(hash: &String) -> (r: String)
    ensures
        r@ == blob_name_spec(hash@),
{
    let mut name = hash.clone();
    name.append(".html");
    name
}

/// Content addressing: two successfully recorded pages whose bodies are
/// equal carry the same digest, so their rows share one blob file.
pub proof fn lemma_content_addressed(b1: Seq<char>, b2: Seq<char>)
    requires
        b1 == b2,
    ensures
        digest_spec(b1) == digest_spec(b2),
        blob_name_spec(digest_spec(b1)) == blob_name_spec(digest_spec(b2)),
{
}

} // verus!
