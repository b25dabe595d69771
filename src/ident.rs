//! Identifiers derived by hashing names: the 10-bit item of a metric, the
//! 22-bit id of an instance domain, and the 32-bit id of an instance.
use vstd::prelude::*;
use std::collections::hash_map::DefaultHasher;
use std::hash::Hasher;
use vstd::std_specs::hash::DefaultHasherAdditionalSpecFns;
use crate::bytes::copy_bytes;

verus! {

/// Number of bits of an item.
pub const ITEM_BIT_LEN: u32 = 10;
/// Number of bits of an instance domain id.
pub const INDOM_BIT_LEN: u32 = 22;
/// Number of bits of a cluster id.
pub const CLUSTER_ID_BIT_LEN: u32 = 12;

/// A metric item: non-zero, within 10 bits.
pub open spec fn valid_item(x: u32) -> bool {
    x != 0 && (x >> 10) == 0
}

/// An instance domain id: non-zero, within 22 bits.
pub open spec fn valid_indom(x: u32) -> bool {
    x != 0 && (x >> 22) == 0
}

/// A cluster id: within 12 bits.
pub open spec fn valid_cluster_id(x: u32) -> bool {
    (x >> 12) == 0
}

/// Whether `item` is a valid metric item.
pub fn is_valid_item(item: u32) -> (r: bool)
    ensures
        r == valid_item(item),
{
    item != 0 && (item >> ITEM_BIT_LEN) == 0
}

/// Whether `indom` is a valid instance domain id.
pub fn is_valid_indom(indom: u32) -> (r: bool)
    ensures
        r == valid_indom(indom),
{
    indom != 0 && (indom >> INDOM_BIT_LEN) == 0
}

/// Whether `cluster_id` fits in 12 bits.
pub fn is_valid_cluster_id(cluster_id: u32) -> (r: bool)
    ensures
        r == valid_cluster_id(cluster_id),
{
    (cluster_id >> CLUSTER_ID_BIT_LEN) == 0
}

/// Whether `offset` can locate a block (blocks never start at 0).
pub fn is_valid_blk_offset(offset: u64) -> (r: bool)
    ensures
        r == (offset != 0),
{
    offset != 0
}

/// The bytes of each buffer.
pub open spec fn byte_parts(v: Seq<Vec<u8>>) -> Seq<Seq<u8>> {
    v.map_values(|p: Vec<u8>| p@)
}

/// The writes that hash a sequence of byte strings: each string followed
/// by the byte 0xff, which no UTF-8 text holds, so that no two sequences of
/// names give the same writes.
pub open spec fn hash_writes(parts: Seq<Seq<u8>>) -> Seq<Seq<u8>>
    decreases parts.len(),
{
    if parts.len() == 0 {
        Seq::empty()
    } else {
        hash_writes(parts.drop_last()).push(parts.last()).push(seq![0xffu8])
    }
}

/// The hash of a sequence of byte strings, salted by one more byte.
pub open spec fn salted_hash(parts: Seq<Seq<u8>>, salt: u8) -> u64 {
    DefaultHasher::spec_finish(hash_writes(parts).push(seq![salt]))
}

/// The item of a metric name: the low 10 bits of the first salted hash,
/// from salt `k` up, whose low 10 bits are not all zero; 1 should all 256
/// salts give zero.
pub open spec fn item_search(name: Seq<u8>, k: int) -> u32
    decreases 256 - k,
{
    if k < 0 || k > 255 {
        1
    } else if (salted_hash(seq![name], k as u8) as u32) & 0x3ff != 0 {
        (salted_hash(seq![name], k as u8) as u32) & 0x3ff
    } else {
        item_search(name, k + 1)
    }
}

/// The item derived from a metric name's bytes.
pub open spec fn item_of(name: Seq<u8>) -> u32 {
    item_search(name, 0)
}

/// The id of an instance domain: like `item_search`, over the ordered
/// instance names and 22 bits.
pub open spec fn indom_search(names: Seq<Seq<u8>>, k: int) -> u32
    decreases 256 - k,
{
    if k < 0 || k > 255 {
        1
    } else if (salted_hash(names, k as u8) as u32) & 0x3fffff != 0 {
        (salted_hash(names, k as u8) as u32) & 0x3fffff
    } else {
        indom_search(names, k + 1)
    }
}

/// The id derived from an instance domain's ordered instance names.
pub open spec fn indom_of(names: Seq<Seq<u8>>) -> u32 {
    indom_search(names, 0)
}

/// The internal id of an instance: its name's hash cut to 32 bits.
pub open spec fn instance_id_of(name: Seq<u8>) -> i32 {
    (salted_hash(seq![name], 0) as u32) as i32
}

fn hash_parts(parts: &Vec<Vec<u8>>, salt: u8) -> (r: u64)
    ensures
        r == salted_hash(byte_parts(parts@), salt),
{
    let mut h = DefaultHasher::new();
    let mut i: usize = 0;
    while i < parts.len()
        invariant
            i <= parts@.len(),
            h@ == hash_writes(byte_parts(parts@.take(i as int))),
        decreases parts@.len() - i,
    {
        h.write(parts[i].as_slice());
        let end: Vec<u8> = vec![0xffu8];
        h.write(end.as_slice());
        i = i + 1;
        assert(byte_parts(parts@.take(i as int)).drop_last() =~= byte_parts(parts@.take(i - 1)));
        assert(end@ =~= seq![0xffu8]);
    }
    let salt_bytes: Vec<u8> = vec![salt];
    h.write(salt_bytes.as_slice());
    assert(parts@.take(parts@.len() as int) =~= parts@);
    assert(salt_bytes@ =~= seq![salt]);
    h.finish()
}

/// Lemma: every value of `item_search` is a valid item.
proof fn lemma_item_search_valid(name: Seq<u8>, k: int)
    ensures
        valid_item(item_search(name, k)),
    decreases 256 - k,
{
    let x = salted_hash(seq![name], k as u8) as u32;
    assert((x & 0x3ff) >> 10 == 0) by (bit_vector);
    assert((1u32 >> 10) == 0) by (bit_vector);
    if 0 <= k <= 255 && (x & 0x3ff) == 0 {
        lemma_item_search_valid(name, k + 1);
    }
}

/// Lemma: every value of `indom_search` is a valid instance domain id.
proof fn lemma_indom_search_valid(names: Seq<Seq<u8>>, k: int)
    ensures
        valid_indom(indom_search(names, k)),
    decreases 256 - k,
{
    let x = salted_hash(names, k as u8) as u32;
    assert((x & 0x3fffff) >> 22 == 0) by (bit_vector);
    assert((1u32 >> 22) == 0) by (bit_vector);
    if 0 <= k <= 255 && (x & 0x3fffff) == 0 {
        lemma_indom_search_valid(names, k + 1);
    }
}

/// Every derived item is non-zero and within 10 bits.
pub proof fn lemma_item_valid(name: Seq<u8>)
    ensures
        valid_item(item_of(name)),
{
    lemma_item_search_valid(name, 0);
}

/// Every derived instance domain id is non-zero and within 22 bits.
pub proof fn lemma_indom_valid(names: Seq<Seq<u8>>)
    ensures
        valid_indom(indom_of(names)),
{
    lemma_indom_search_valid(names, 0);
}

/// The item of the metric named by `name`.
pub fn item_id(name: &[u8]) -> (r: u32)
    ensures
        r == item_of(name@),
        valid_item(r),
{
    let parts: Vec<Vec<u8>> = vec![copy_bytes(name, 0, name.len())];
    assert(name@.subrange(0, name@.len() as int) =~= name@);
    assert(byte_parts(parts@) =~= seq![name@]);
    let mut k: u32 = 0;
    while k < 256
        invariant
            k <= 256,
            byte_parts(parts@) == seq![name@],
            item_search(name@, k as int) == item_of(name@),
        decreases 256 - k,
    {
        let x = (hash_parts(&parts, k as u8) as u32) & 0x3ff;
        if x != 0 {
            proof { lemma_item_valid(name@); }
            return x;
        }
        k = k + 1;
    }
    proof { lemma_item_valid(name@); }
    1
}

/// The id of the instance domain with these instance names, in order.
pub fn indom_id(names: &Vec<Vec<u8>>) -> (r: u32)
    ensures
        r == indom_of(byte_parts(names@)),
        valid_indom(r),
{
    let ghost v = byte_parts(names@);
    let mut k: u32 = 0;
    while k < 256
        invariant
            k <= 256,
            v == byte_parts(names@),
            indom_search(v, k as int) == indom_of(v),
        decreases 256 - k,
    {
        let x = (hash_parts(names, k as u8) as u32) & 0x3fffff;
        if x != 0 {
            proof { lemma_indom_valid(v); }
            return x;
        }
        k = k + 1;
    }
    proof { lemma_indom_valid(v); }
    1
}

/// The internal id of the instance named by `name`.
pub fn instance_id(name: &[u8]) -> (r: i32)
    ensures
        r == instance_id_of(name@),
{
    let parts: Vec<Vec<u8>> = vec![copy_bytes(name, 0, name.len())];
    assert(name@.subrange(0, name@.len() as int) =~= name@);
    assert(byte_parts(parts@) =~= seq![name@]);
    (hash_parts(&parts, 0) as u32) as i32
}

} // verus!
