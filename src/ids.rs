//! Asset identifiers, transfers and their byte encodings.

use vstd::prelude::*;
use vstd::slice::slice_subrange;
use vstd::bytes::{spec_u128_from_le_bytes, spec_u128_to_le_bytes, u128_from_le_bytes, u128_to_le_bytes};

verus! {

/// A globally unique asset: the collection block and the sequence within it.
#[derive(Clone, Copy, Debug, PartialEq, Eq, Structural)]
pub struct AssetId {
    pub block: u128,
    pub tx: u128,
}

/// An amount of one asset moving into or out of the engine.
#[derive(Clone, Copy, Debug, PartialEq, Eq, Structural)]
pub struct Transfer {
    pub id: AssetId,
    pub value: u128,
}

/// The 32-byte key of an asset: `block` then `tx`, each 16 bytes little-endian.
pub open spec fn id_bytes(id: AssetId) -> Seq<u8> {
    spec_u128_to_le_bytes(id.block) + spec_u128_to_le_bytes(id.tx)
}

/// Encodes an asset identifier as its 32-byte key.
pub fn alkane_id_to_bytes(id: &AssetId) -> (r: Vec<u8>)
    ensures
        r@ == id_bytes(*id),
        r@.len() == 32,
{
    proof {
        vstd::bytes::lemma_auto_spec_u128_to_from_le_bytes();
    }
    let mut r = u128_to_le_bytes(id.block);
    let mut t = u128_to_le_bytes(id.tx);
    r.append(&mut t);
    r
}

/// Decodes a 32-byte key back into an asset identifier; any other length is rejected.
pub fn bytes_to_nft_id(b: &[u8]) -> (r: Option<AssetId>)
    ensures
        b@.len() != 32 ==> r is None,
        b@.len() == 32 ==> r == Some(AssetId {
            block: spec_u128_from_le_bytes(b@.subrange(0, 16)),
            tx: spec_u128_from_le_bytes(b@.subrange(16, 32)),
        }),
        b@.len() == 32 ==> id_bytes(r->0) == b@,
{
    proof {
        vstd::bytes::lemma_auto_spec_u128_to_from_le_bytes();
    }
    if b.len() != 32 {
        return None;
    }
    let block = u128_from_le_bytes(slice_subrange(b, 0, 16));
    let tx = u128_from_le_bytes(slice_subrange(b, 16, 32));
    proof {
        assert(b@ =~= b@.subrange(0, 16) + b@.subrange(16, 32));
    }
    Some(AssetId { block, tx })
}

} // verus!
