//! Identifier minting: fresh entropy and the current block height are hashed
//! into a 32-byte session identifier.

use vstd::prelude::*;
use blake2::Digest;
use crate::GameId;

verus! {

/// The 32-byte BLAKE2b digest of a byte string, named here because its value
/// is a function of the input alone and is not restated in this crate.
pub uninterp spec fn blake2b_256_of(data: Seq<u8>) -> Seq<u8>;

/// The block number in little-endian byte order.
pub open spec fn u64_le_bytes(n: u64) -> Seq<u8> {
    seq![
        (n & 0xff) as u8,
        ((n >> 8) & 0xff) as u8,
        ((n >> 16) & 0xff) as u8,
        ((n >> 24) & 0xff) as u8,
        ((n >> 32) & 0xff) as u8,
        ((n >> 40) & 0xff) as u8,
        ((n >> 48) & 0xff) as u8,
        ((n >> 56) & 0xff) as u8,
    ]
}

/// The byte string hashed to mint an identifier: the 32 fresh entropy bytes
/// followed by the block number in little-endian order.
pub open spec fn id_payload(seed: Seq<u8>, block_number: u64) -> Seq<u8> {
    seed + u64_le_bytes(block_number)
}

/// Relies on blake2's `Blake2b` with 32-byte output: the digest is a pure
/// function of the input bytes.
#[verifier::external_body]
fn blake2b_256(data: &Vec<u8>) -> (r: GameId)
    ensures
        r@ == blake2b_256_of(data@),
{
    let mut hasher = blake2::Blake2b::<blake2::digest::consts::U32>::new();
    hasher.update(data.as_slice());
    hasher.finalize().into()
}

/// Mints a session identifier by hashing fresh entropy together with the
/// current block height. Collisions are possible in principle, so a caller
/// must still verify that the identifier is unused before inserting it.
pub fn gen_id(seed: &[u8; 32], block_number: u64) -> (r: GameId)
    ensures
        r@ == blake2b_256_of(id_payload(seed@, block_number)),
{
    let mut payload: Vec<u8> = Vec::new();
    let mut i: usize = 0;
    while i < 32
        invariant
            i <= 32,
            payload@.len() == i,
            forall|j: int| 0 <= j < i ==> payload@[j] == seed@[j],
        decreases 32 - i,
    {
        payload.push(seed[i]);
        i = i + 1;
    }
    let n: u64 = block_number;
    proof {
        assert((n & 0xff) <= 0xff) by (bit_vector);
        assert(((n >> 8) & 0xff) <= 0xff) by (bit_vector);
        assert(((n >> 16) & 0xff) <= 0xff) by (bit_vector);
        assert(((n >> 24) & 0xff) <= 0xff) by (bit_vector);
        assert(((n >> 32) & 0xff) <= 0xff) by (bit_vector);
        assert(((n >> 40) & 0xff) <= 0xff) by (bit_vector);
        assert(((n >> 48) & 0xff) <= 0xff) by (bit_vector);
        assert(((n >> 56) & 0xff) <= 0xff) by (bit_vector);
    }
    payload.push((n & 0xff) as u8);
    payload.push(((n >> 8) & 0xff) as u8);
    payload.push(((n >> 16) & 0xff) as u8);
    payload.push(((n >> 24) & 0xff) as u8);
    payload.push(((n >> 32) & 0xff) as u8);
    payload.push(((n >> 40) & 0xff) as u8);
    payload.push(((n >> 48) & 0xff) as u8);
    payload.push(((n >> 56) & 0xff) as u8);
    proof {
        assert(payload@ =~= id_payload(seed@, block_number));
    }
    blake2b_256(&payload)
}

} // verus!
