//! The address text of a public key: a digest of the key, regrouped into
//! five-bit symbols and encoded with a bech32m checksum.

use crate::bech32::{all_below_32, bech32_encode, encode_spec};
use crate::convert::{convert_spec, convertbits, lemma_regroup_length, symbols_below};
use blake2::Digest;
use vstd::prelude::*;
use vstd::string::StringSliceAdditionalSpecFns;

verus! {

/// The prefix of this network's addresses.
pub const KASPA_PREFIX: &'static str = "kaspa";

/// How many leading digest bytes make the public-key hash.
pub const KEY_HASH_LEN: usize = 20;

/// The 32-byte BLAKE2b digest of `data`.
pub uninterp spec fn blake2b_256(data: Seq<u8>) -> Seq<u8>;

/// Relies on `blake2::Blake2b` with a 32-byte output size: the digest of
/// `data`, which depends on `data` alone and is 32 bytes long.
#[verifier::external_body]
fn blake2b_256_digest(data: &[u8]) -> (r: Vec<u8>)
    ensures
        r@ == blake2b_256(data@),
        r@.len() == 32,
{
    let mut hasher = blake2::Blake2b::<blake2::digest::consts::U32>::new();
    hasher.update(data);
    hasher.finalize().to_vec()
}

/// The five-bit symbols of the first 20 digest bytes, zero-padded.
pub open spec fn key_hash_symbols(digest: Seq<u8>) -> Seq<u8> {
    match convert_spec(digest.take(KEY_HASH_LEN as int), 8, 5, true) {
        Ok(v) => v,
        Err(_) => Seq::empty(),
    }
}

/// The address text of a key whose digest is `digest`, under `prefix`.
pub open spec fn address_spec(prefix: &str, digest: Seq<u8>) -> Seq<char> {
    encode_spec(prefix@, prefix.spec_bytes(), key_hash_symbols(digest))
}

/// Encodes the address of a public key from its digest: the first 20 digest
/// bytes are regrouped into five-bit symbols and encoded under `prefix`.
pub fn address_from_digest(prefix: &str, digest: &[u8]) -> (r: String)
    requires
        digest@.len() >= KEY_HASH_LEN,
    ensures
        r@ == address_spec(prefix, digest@),
        r@.len() == prefix@.len() + 1 + 32 + 6,
{
    let hash = &digest[0..KEY_HASH_LEN];
    proof {
        assert(hash@ == digest@.take(KEY_HASH_LEN as int));
        lemma_regroup_length(hash@);
    }
    let converted = convertbits(hash, 8, 5, true);
    match converted {
        Ok(data) => {
            proof {
                assert((1u32 << 5u32) == 32) by (bit_vector);
                assert(symbols_below(data@, 5));
                assert(all_below_32(data@)) by {
                    assert forall|i: int| 0 <= i < data@.len() implies #[trigger] data@[i] < 32 by {
                        assert((data@[i] as u32) < (1u32 << 5u32));
                    }
                }
            }
            bech32_encode(prefix, data.as_slice())
        },
        Err(_) => {
            proof {
                assert(false);
            }
            String::new()
        },
    }
}

/// The address text of `public_key` under `prefix`.
pub fn encode_address(prefix: &str, public_key: &[u8]) -> (r: String)
    ensures
        r@ == address_spec(prefix, blake2b_256(public_key@)),
        r@.len() == prefix@.len() + 1 + 32 + 6,
{
    let digest = blake2b_256_digest(public_key);
    address_from_digest(prefix, digest.as_slice())
}

/// The `kaspa:` address text of `pub_key_bytes`.
pub fn kaspa_address(pub_key_bytes: &[u8]) -> (r: String)
    ensures
        r@ == address_spec(KASPA_PREFIX, blake2b_256(pub_key_bytes@)),
        r@.len() == KASPA_PREFIX@.len() + 1 + 32 + 6,
{
    encode_address(KASPA_PREFIX, pub_key_bytes)
}

} // verus!
