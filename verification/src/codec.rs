//! The byte encoding of a pool's tick bitmap, written and read by borsh.
use vstd::prelude::*;
use std::collections::BTreeMap;
use borsh::BorshDeserialize;

verus! {

/// The bytes that `borsh::to_vec` writes for a bitmap.
pub uninterp spec fn borsh_bitmap_bytes(m: Map<i16, u64>) -> Seq<u8>;

/// The bitmap that borsh's `try_from_slice` reads from bytes, or `None` when
/// it refuses them.
pub uninterp spec fn borsh_bitmap_parse(bytes: Seq<u8>) -> Option<Map<i16, u64>>;

/// Encodes a bitmap with `borsh::to_vec`. Its contract names the bytes and
/// states that borsh's `try_from_slice` reads them back as the same map:
/// borsh writes the entries in key order after a `u32` count, and reads the
/// pairs back into a map. borsh writes into a `Vec`, which cannot fail, and
/// a map keyed by `i16` has at most 65536 entries, so its length always
/// fits the `u32` count: the call never reports an error.
#[verifier::external_body]
pub(crate) fn encode_bitmap(map: &BTreeMap<i16, u64>) -> (r: Vec<u8>)
    ensures
        r@ == borsh_bitmap_bytes(map@),
        borsh_bitmap_parse(r@) == Some(map@),
{
    borsh::to_vec(map).expect("a bitmap always encodes")
}

/// Decodes a bitmap with borsh's `try_from_slice`. Its contract names what
/// comes back: a map, or `None` where borsh reports an error.
#[verifier::external_body]
pub(crate) fn decode_bitmap(bytes: &[u8]) -> (r: Option<BTreeMap<i16, u64>>)
    ensures
        r is Some <==> borsh_bitmap_parse(bytes@) is Some,
        r is Some ==> borsh_bitmap_parse(bytes@) == Some(r.unwrap()@),
{
    match <BTreeMap<i16, u64> as BorshDeserialize>::try_from_slice(bytes) {
        Ok(map) => Some(map),
        Err(_) => None,
    }
}

} // verus!
