//! The byte encodings and hashes that the pallets compute, from the SCALE codec and the
//! runtime's hashing functions.
use vstd::prelude::*;

use crate::runtime::AccountId;

verus! {

/// The BLAKE2b hash with a 256-bit output of `data`.
pub uninterp spec fn blake2_256_of(data: Seq<u8>) -> Seq<u8>;

/// The SCALE encoding of an account: `parity_scale_codec::Encode::encode` on a byte array, which
/// writes the bytes of the array as they are, without a length prefix.
#[verifier::external_body]
pub(crate) fn encode_account(who: &AccountId) -> (r: Vec<u8>)
    ensures
        r@ == who@,
{
    parity_scale_codec::Encode::encode(who)
}

/// `sp_io::hashing::blake2_256`: the 256-bit BLAKE2b hash of `data`. Its result is named, and
/// is claimed to depend on `data` alone.
#[verifier::external_body]
pub(crate) fn blake2_256(data: &[u8]) -> (r: [u8; 32])
    ensures
        r@ == blake2_256_of(data@),
{
    sp_io::hashing::blake2_256(data)
}

} // verus!
