//! The hash by which a file is found again: SHA-256 over its transfer and its content.

use crate::text::{hex, hex_text, lemma_hex_injective, lemma_hex_len};
use sha2::{Digest, Sha256};
use vstd::prelude::*;
use vstd::utf8::encode_utf8;

verus! {

/// The SHA-256 digest of `data`.
pub uninterp spec fn sha256(data: Seq<u8>) -> Seq<u8>;

/// `sha2::Sha256::digest` hashes the bytes: the digest depends on them alone and has 32
/// bytes. Their number of bits is counted in 64 bits, which is enough for whatever an
/// address space holds.
#[verifier::external_body]
fn digest(data: &Vec<u8>) -> (r: Vec<u8>)
    ensures
        r@ == sha256(data@),
        r@.len() == 32,
{
    Sha256::digest(data).to_vec()
}

/// The hash of a file with this content in transfer `transfer_id`.
pub open spec fn hash_text(transfer_id: Seq<char>, content: Seq<u8>) -> Seq<char> {
    hex(sha256(encode_utf8(transfer_id) + content))
}

/// Two files share a hash exactly where the digests of their transfers and contents are
/// the same: writing a digest down loses nothing.
pub proof fn lemma_hash_tells_digest(t: Seq<char>, a: Seq<u8>, u: Seq<char>, b: Seq<u8>)
    ensures
        hash_text(t, a) == hash_text(u, b) <==> sha256(encode_utf8(t) + a) == sha256(encode_utf8(u) + b),
{
    if hash_text(t, a) == hash_text(u, b) {
        lemma_hex_injective(sha256(encode_utf8(t) + a), sha256(encode_utf8(u) + b));
    }
}

/// The hash of a file: 64 hexadecimal digits.
pub fn hash_content(transfer_id: &str, content: &[u8]) -> (r: String)
    ensures
        r@ == hash_text(transfer_id@, content@),
        r@.len() == 64,
{
    let mut buffer: Vec<u8> = Vec::new();
    let id = transfer_id.as_bytes();
    let mut i: usize = 0;
    while i < id.len()
        invariant
            i <= id@.len(),
            buffer@ == id@.take(i as int),
        decreases id@.len() - i,
    {
        buffer.push(id[i]);
        assert(buffer@ =~= id@.take(i + 1));
        i += 1;
    }
    assert(id@.take(id@.len() as int) =~= id@);
    let mut j: usize = 0;
    assert(buffer@ =~= id@ + content@.take(0));
    while j < content.len()
        invariant
            j <= content@.len(),
            buffer@ == id@ + content@.take(j as int),
        decreases content@.len() - j,
    {
        buffer.push(content[j]);
        assert(buffer@ =~= id@ + content@.take(j + 1));
        j += 1;
    }
    assert(content@.take(content@.len() as int) =~= content@);
    let bytes = digest(&buffer);
    proof {
        lemma_hex_len(bytes@);
    }
    hex_text(bytes.as_slice())
}

} // verus!
