use vstd::prelude::*;

verus! {

/// The SHA-256 digest of a byte sequence. The digest function is left
/// uninterpreted: contracts of this library speak of digests only through
/// this name, and the executable digests come from the wrapper below.
pub uninterp spec fn sha256_of(data: Seq<u8>) -> Seq<u8>;

/// Relies on anchor_lang::solana_program::hash::hashv, which returns the
/// SHA-256 digest of the concatenation of the input slices: 32 bytes,
/// a function of the input bytes alone.
#[verifier::external_body]
pub(crate) fn sha256_concat(a: &[u8], b: &[u8]) -> (r: [u8; 32])
    ensures
        r@ == sha256_of(a@ + b@),
{
    anchor_lang::solana_program::hash::hashv(&[a, b]).to_bytes()
}

} // verus!
