use vstd::prelude::*;
use vstd::utf8::encode_utf8;

verus! {

/// The BLAKE3 digest of `input`.
pub uninterp spec fn blake3_digest(input: Seq<u8>) -> Seq<u8>;

/// Calls `blake3::hash` and hands out the digest's 32 bytes: the contract
/// claims that they are the BLAKE3 digest of the input, a function of the
/// input bytes alone.
#[verifier::external_body]
fn blake3_hash(input: &[u8]) -> (out: [u8; 32])
    ensures
        out@ == blake3_digest(input@),
{
    *blake3::hash(input).as_bytes()
}

/// The roster key of a peer: the BLAKE3 digest of its name's UTF-8 bytes.
pub fn roster_key(peer: &String) -> (key: [u8; 32])
    ensures
        key@ == blake3_digest(encode_utf8(peer@)),
{
    blake3_hash(peer.as_str().as_bytes())
}

} // verus!
