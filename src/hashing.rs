//! The 256-bit digest that challenges and the lottery randomness are made of.

use vstd::prelude::*;

verus! {

/// The 32-byte BLAKE2b digest of `data`.
pub uninterp spec fn blake2_256_of(data: Seq<u8>) -> Seq<u8>;

/// Relies on `sp_crypto_hashing::blake2_256`: the unkeyed BLAKE2b digest of
/// `data` with a 32-byte output, which depends on the bytes of `data` alone.
#[verifier::external_body]
pub(crate) fn blake2_256(data: &Vec<u8>) -> (r: [u8; 32])
    ensures
        r@ == blake2_256_of(data@),
{
    sp_crypto_hashing::blake2_256(data.as_slice())
}

} // verus!
