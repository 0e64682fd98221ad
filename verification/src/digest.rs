use vstd::prelude::*;

use crate::model::MAX_BASKET_ASSETS;
use crate::types::{AssetAllocation, Bytes32};

verus! {

/// The SHA-256 digest of a byte string.
pub uninterp spec fn sha256_digest(data: Seq<u8>) -> Seq<u8>;

/// The most bytes hashed at once: well inside the host's default budget
/// (100,000,000 CPU instructions, at about 55 per hashed byte), past which
/// the host stops with an error.
pub const MAX_HASH_INPUT: usize = 500_000;

/// SHA-256 of `data`, computed by a default Soroban host (`Env::default`,
/// `Bytes::from_slice`, `Crypto::sha256`). Trusted: the result is the SHA-256
/// digest of exactly these bytes (so a function of them alone), and it has 32
/// bytes. The input is bounded so that the host's budget is never exhausted.
#[verifier::external_body]
fn sha256(data: &Vec<u8>) -> (digest: Vec<u8>)
    requires
        data@.len() <= MAX_HASH_INPUT,
    ensures
        digest@ == sha256_digest(data@),
        digest@.len() == 32,
{
    let env = soroban_sdk::Env::default();
    let bytes = soroban_sdk::Bytes::from_slice(&env, data.as_slice());
    env.crypto().sha256(&bytes).to_array().to_vec()
}

/// The 16 big-endian bytes of `x`.
pub open spec fn u128_be_bytes(x: u128) -> Seq<u8> {
    Seq::new(16, |i: int| ((x >> ((120 - 8 * i) as u32)) & 0xffu128) as u8)
}

/// The 4 big-endian bytes of `x`.
pub open spec fn u32_be_bytes(x: u32) -> Seq<u8> {
    Seq::new(4, |i: int| ((x >> ((24 - 8 * i) as u32)) & 0xffu32) as u8)
}

/// The encoding of one allocation: a kind byte (1 for a contract, 0 for an
/// account), the 32 bytes of the asset's key, and the weight's 4 bytes,
/// all big-endian.
pub open spec fn allocation_bytes(a: AssetAllocation) -> Seq<u8> {
    seq![if a.asset.is_contract { 1u8 } else { 0u8 }] + u128_be_bytes(a.asset.key.hi) + u128_be_bytes(
        a.asset.key.lo,
    ) + u32_be_bytes(a.target_bps)
}

/// The encoding of a basket: its allocations' encodings, in order.
pub open spec fn basket_bytes(allocations: Seq<AssetAllocation>) -> Seq<u8>
    decreases allocations.len(),
{
    if allocations.len() == 0 {
        Seq::empty()
    } else {
        basket_bytes(allocations.drop_last()) + allocation_bytes(allocations.last())
    }
}

/// A basket's encoding has 37 bytes per allocation.
proof fn lemma_basket_bytes_len(allocations: Seq<AssetAllocation>)
    ensures
        basket_bytes(allocations).len() == 37 * allocations.len(),
    decreases allocations.len(),
{
    if allocations.len() > 0 {
        lemma_basket_bytes_len(allocations.drop_last());
    }
}

/// The value of big-endian bytes, shifted into a `u128`.
pub open spec fn be_u128(bytes: Seq<u8>) -> u128
    decreases bytes.len(),
{
    if bytes.len() == 0 {
        0
    } else {
        (be_u128(bytes.drop_last()) << 8u32) | (bytes.last() as u128)
    }
}

/// A 32-byte digest as the two halves of a `Bytes32`.
pub open spec fn digest_value(digest: Seq<u8>) -> Bytes32 {
    Bytes32 { hi: be_u128(digest.subrange(0, 16)), lo: be_u128(digest.subrange(16, 32)) }
}

/// The hash of a basket: the SHA-256 digest of its encoding.
pub open spec fn basket_hash(allocations: Seq<AssetAllocation>) -> Bytes32 {
    digest_value(sha256_digest(basket_bytes(allocations)))
}

fn push_u128(out: &mut Vec<u8>, x: u128)
    ensures
        final(out)@ == old(out)@ + u128_be_bytes(x),
{
    let ghost start = out@;
    for i in 0..16usize
        invariant
            out@ == start + u128_be_bytes(x).take(i as int),
    {
        let shift: u32 = (120 - 8 * i) as u32;
        out.push(((x >> shift) & 0xffu128) as u8);
        assert(u128_be_bytes(x).take(i + 1) =~= u128_be_bytes(x).take(i as int).push(u128_be_bytes(x)[i as int]));
    }
    assert(u128_be_bytes(x).take(16) =~= u128_be_bytes(x));
}

fn push_u32(out: &mut Vec<u8>, x: u32)
    ensures
        final(out)@ == old(out)@ + u32_be_bytes(x),
{
    let ghost start = out@;
    for i in 0..4usize
        invariant
            out@ == start + u32_be_bytes(x).take(i as int),
    {
        let shift: u32 = (24 - 8 * i) as u32;
        out.push(((x >> shift) & 0xffu32) as u8);
        assert(u32_be_bytes(x).take(i + 1) =~= u32_be_bytes(x).take(i as int).push(u32_be_bytes(x)[i as int]));
    }
    assert(u32_be_bytes(x).take(4) =~= u32_be_bytes(x));
}

/// The encoding of a basket.
fn encode_basket(allocations: &Vec<AssetAllocation>) -> (bytes: Vec<u8>)
    ensures
        bytes@ == basket_bytes(allocations@),
{
    let mut bytes: Vec<u8> = Vec::new();
    let n = allocations.len();
    assert(allocations@.take(0) =~= Seq::<AssetAllocation>::empty());
    for i in 0..n
        invariant
            n == allocations@.len(),
            bytes@ == basket_bytes(allocations@.take(i as int)),
    {
        let a = allocations[i];
        let ghost before = bytes@;
        bytes.push(if a.asset.is_contract { 1u8 } else { 0u8 });
        push_u128(&mut bytes, a.asset.key.hi);
        push_u128(&mut bytes, a.asset.key.lo);
        push_u32(&mut bytes, a.target_bps);
        assert(allocations@.take(i + 1).drop_last() =~= allocations@.take(i as int));
        assert(allocations@.take(i + 1).last() == a);
        assert(bytes@ =~= before + allocation_bytes(a));
    }
    assert(allocations@.take(n as int) =~= allocations@);
    bytes
}

/// The value of bytes `start .. start + 16` of `digest`.
fn read_u128(digest: &Vec<u8>, start: usize) -> (x: u128)
    requires
        start + 16 <= digest.len(),
    ensures
        x == be_u128(digest@.subrange(start as int, start + 16)),
{
    let mut x: u128 = 0;
    assert(digest@.subrange(start as int, start as int) =~= Seq::<u8>::empty());
    for i in 0..16usize
        invariant
            start + 16 <= digest.len(),
            x == be_u128(digest@.subrange(start as int, start + i)),
    {
        let b = digest[start + i];
        assert(digest@.subrange(start as int, start + i + 1).drop_last() =~= digest@.subrange(
            start as int,
            start + i,
        ));
        x = (x << 8u32) | (b as u128);
    }
    x
}

/// The hash of a basket: the SHA-256 digest of its encoding, as a `Bytes32`.
pub fn hash_basket(allocations: &Vec<AssetAllocation>) -> (hash: Bytes32)
    requires
        allocations@.len() <= MAX_BASKET_ASSETS,
    ensures
        hash == basket_hash(allocations@),
{
    let bytes = encode_basket(allocations);
    proof {
        lemma_basket_bytes_len(allocations@);
    }
    let digest = sha256(&bytes);
    Bytes32 { hi: read_u128(&digest, 0), lo: read_u128(&digest, 16) }
}

} // verus!
