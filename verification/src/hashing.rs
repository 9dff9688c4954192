//! The two computations the library takes from alloy: Keccak-256 and the decimal
//! rendering of a 256-bit unsigned integer.

use vstd::prelude::*;

use crate::text::decimal;

verus! {

/// The Keccak-256 digest of `input`.
pub uninterp spec fn keccak256_digest(input: Seq<u8>) -> Seq<u8>;

/// The natural number whose big-endian bytes are `bytes`.
pub open spec fn be_value(bytes: Seq<u8>) -> nat
    decreases bytes.len(),
{
    if bytes.len() == 0 {
        0
    } else {
        be_value(bytes.drop_last()) * 256 + bytes.last() as nat
    }
}

/// Calls `alloy::primitives::keccak256`; claims that the 32 bytes it returns are
/// [`keccak256_digest`] of the input bytes.
#[verifier::external_body]
pub(crate) fn keccak256(input: &[u8]) -> (digest: [u8; 32])
    ensures
        digest@ == keccak256_digest(input@),
{
    alloy::primitives::keccak256(input).0
}

/// Calls `alloy::primitives::U256::from_be_bytes` and the `Display` of `U256`; claims that
/// the text is the decimal representation, without leading zeros, of the big-endian
/// number held by the 32 bytes.
#[verifier::external_body]
pub(crate) fn u256_to_decimal(word: &[u8; 32]) -> (s: String)
    ensures
        s@ == decimal(be_value(word@)),
{
    alloy::primitives::U256::from_be_bytes(*word).to_string()
}

} // verus!
