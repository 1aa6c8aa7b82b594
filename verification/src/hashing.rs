//! Identity derivation for trade pairs.
//!
//! A new pair's hash is a 32-byte BLAKE2b digest of the encoded tuple
//! `(random_seed, block_number, sender, base, quote, nonce)`, read as an
//! unsigned integer. The pool account custodian of the pair is derived
//! from `(base, quote, hash)` under a domain-separation tag, so that it
//! cannot collide with accounts derived by other schemes.

use vstd::prelude::*;
use blake2::Blake2b;
use blake2::Digest;
use blake2::digest::consts::U32;

use crate::bytes::le_bytes_of;
use crate::bytes::le_to_int;
use crate::bytes::lemma_le_to_int_bounds;
use crate::bytes::lemma_pow256_increases;
use crate::bytes::lemma_pow256_values;
use crate::bytes::append_le_bytes;
use crate::bytes::read_le_u128;

verus! {

/// What the 32-byte BLAKE2b digest of the given bytes is; the digest is a
/// function of the input bytes alone.
pub uninterp spec fn blake2b_256_of(data: Seq<u8>) -> Seq<u8>;

/// Relies on blake2::Blake2b with a 32-byte output size (through
/// digest::Digest::digest): the digest depends on the input bytes alone
/// and is always exactly 32 bytes long.
#[verifier::external_body]
fn blake2b_256(data: &Vec<u8>) -> (r: Vec<u8>)
    ensures
        r@ == blake2b_256_of(data@),
        r@.len() == 32,
{
    Blake2b::<U32>::digest(data.as_slice()).to_vec()
}

/// The ASCII bytes of the domain-separation tag "substrate/uniswap".
pub open spec fn account_tag() -> Seq<u8> {
    seq![
        115u8, 117u8, 98u8, 115u8, 116u8, 114u8, 97u8, 116u8, 101u8, 47u8, 117u8, 110u8, 105u8,
        115u8, 119u8, 97u8, 112u8,
    ]
}

/// The encoded `(seed, block_number, sender, base, quote, nonce)` tuple.
pub open spec fn pair_tuple_bytes(
    seed: u128,
    block_number: u64,
    sender: u64,
    base: u128,
    quote: u128,
    nonce: u64,
) -> Seq<u8> {
    le_bytes_of(seed as int, 16) + le_bytes_of(block_number as int, 8) + le_bytes_of(
        sender as int,
        8,
    ) + le_bytes_of(base as int, 16) + le_bytes_of(quote as int, 16) + le_bytes_of(nonce as int, 8)
}

/// The hash under which a pair created from this tuple is registered.
pub open spec fn spec_pair_hash(
    seed: u128,
    block_number: u64,
    sender: u64,
    base: u128,
    quote: u128,
    nonce: u64,
) -> u128 {
    le_to_int(
        blake2b_256_of(pair_tuple_bytes(seed, block_number, sender, base, quote, nonce)).subrange(
            0,
            16,
        ),
    ) as u128
}

/// The encoded input of pool-account derivation: the tag, then base,
/// quote and pair hash.
pub open spec fn account_tuple_bytes(base: u128, quote: u128, hash: u128) -> Seq<u8> {
    account_tag() + le_bytes_of(base as int, 16) + le_bytes_of(quote as int, 16) + le_bytes_of(
        hash as int,
        16,
    )
}

/// The pool account that custodies the reserves of a pair: a pure
/// function of `(base, quote, hash)`.
pub open spec fn spec_derivative_account(base: u128, quote: u128, hash: u128) -> u64 {
    le_to_int(blake2b_256_of(account_tuple_bytes(base, quote, hash)).subrange(0, 8)) as u64
}

/// Computes the hash of a new pair from the creation tuple.
pub fn pair_hash(
    seed: u128,
    block_number: u64,
    sender: u64,
    base: u128,
    quote: u128,
    nonce: u64,
) -> (r: u128)
    ensures
        r == spec_pair_hash(seed, block_number, sender, base, quote, nonce),
{
    let mut data: Vec<u8> = Vec::new();
    append_le_bytes(&mut data, seed, 16);
    append_le_bytes(&mut data, block_number as u128, 8);
    append_le_bytes(&mut data, sender as u128, 8);
    append_le_bytes(&mut data, base, 16);
    append_le_bytes(&mut data, quote, 16);
    append_le_bytes(&mut data, nonce as u128, 8);
    proof {
        assert(data@ =~= pair_tuple_bytes(seed, block_number, sender, base, quote, nonce));
    }
    let digest = blake2b_256(&data);
    let r = read_le_u128(&digest, 0, 16);
    proof {
        let sub = digest@.subrange(0, 16);
        lemma_le_to_int_bounds(sub);
        lemma_pow256_values();
    }
    r
}

/// Computes the pool account of a pair from its base, quote and hash.
pub fn derivative_account_id(base: u128, quote: u128, hash: u128) -> (r: u64)
    ensures
        r == spec_derivative_account(base, quote, hash),
{
    let mut data: Vec<u8> = Vec::new();
    data.push(115);
    data.push(117);
    data.push(98);
    data.push(115);
    data.push(116);
    data.push(114);
    data.push(97);
    data.push(116);
    data.push(101);
    data.push(47);
    data.push(117);
    data.push(110);
    data.push(105);
    data.push(115);
    data.push(119);
    data.push(97);
    data.push(112);
    proof {
        assert(data@ =~= account_tag());
    }
    append_le_bytes(&mut data, base, 16);
    append_le_bytes(&mut data, quote, 16);
    append_le_bytes(&mut data, hash, 16);
    proof {
        assert(data@ =~= account_tuple_bytes(base, quote, hash));
    }
    let digest = blake2b_256(&data);
    let r = read_le_u128(&digest, 0, 8);
    proof {
        let sub = digest@.subrange(0, 8);
        lemma_le_to_int_bounds(sub);
        lemma_pow256_values();
        lemma_pow256_increases(8, 16);
        assert(le_to_int(sub) < 0x1_0000_0000_0000_0000);
    }
    r as u64
}

} // verus!
