//! Hashing and byte encodings shared by blocks and the leader schedule.

use vstd::prelude::*;

verus! {

/// A 64-byte digest; the identity of a block.
pub type BlockHash = [u8; 64];

/// The SHA-512 digest of a byte string.
pub uninterp spec fn sha512(data: Seq<u8>) -> Seq<u8>;

/// Inputs short enough for their length in bits to fit the hasher's 64-bit
/// counter.
pub open spec fn hashable(data: Seq<u8>) -> bool {
    data.len() < 0x2000_0000_0000_0000
}

/// Calls `ring::digest::digest` with `ring::digest::SHA512` and hands out the
/// bytes of the result. The contract claims that these bytes are a function
/// of the input bytes alone, and that there are 64 of them, the output length
/// of SHA-512; nothing else is assumed of the hash. Longer inputs than
/// `hashable` admits make the hasher panic.
#[verifier::external_body]
fn sha512_bytes(data: &[u8]) -> (bytes: Vec<u8>)
    requires
        hashable(data@),
    ensures
        bytes@ == sha512(data@),
        bytes@.len() == 64,
{
    ring::digest::digest(&ring::digest::SHA512, data).as_ref().to_vec()
}

/// The first 64 bytes of the output of a hasher, as a digest.
pub fn digest_to_string(hash: &[u8]) -> (digest: BlockHash)
    requires
        hash@.len() >= 64,
    ensures
        digest@ == hash@.subrange(0, 64),
{
    let mut res: BlockHash = [0u8; 64];
    let mut i: usize = 0;
    while i < 64
        invariant
            i <= 64,
            hash@.len() >= 64,
            forall|j: int| 0 <= j < i ==> res@[j] == hash@[j],
        decreases 64 - i,
    {
        res[i] = hash[i];
        i += 1;
    }
    assert(res@ =~= hash@.subrange(0, 64));
    res
}

/// The SHA-512 digest of `data`.
pub fn sha512_digest(data: &[u8]) -> (hash: BlockHash)
    requires
        hashable(data@),
    ensures
        hash@ == sha512(data@),
{
    let bytes = sha512_bytes(data);
    assert(bytes@.subrange(0, 64) =~= bytes@);
    digest_to_string(bytes.as_slice())
}

/// Big-endian bytes of a 64-bit number, most significant byte first.
pub open spec fn be_bytes(x: u64) -> Seq<u8> {
    seq![
        (x / 0x100_0000_0000_0000 % 256) as u8,
        (x / 0x1_0000_0000_0000 % 256) as u8,
        (x / 0x100_0000_0000 % 256) as u8,
        (x / 0x1_0000_0000 % 256) as u8,
        (x / 0x100_0000 % 256) as u8,
        (x / 0x1_0000 % 256) as u8,
        (x / 0x100 % 256) as u8,
        (x % 256) as u8,
    ]
}

/// Little-endian bytes of a 64-bit number, least significant byte first.
pub open spec fn le_bytes(x: u64) -> Seq<u8> {
    seq![
        (x % 256) as u8,
        (x / 0x100 % 256) as u8,
        (x / 0x1_0000 % 256) as u8,
        (x / 0x100_0000 % 256) as u8,
        (x / 0x1_0000_0000 % 256) as u8,
        (x / 0x100_0000_0000 % 256) as u8,
        (x / 0x1_0000_0000_0000 % 256) as u8,
        (x / 0x100_0000_0000_0000 % 256) as u8,
    ]
}

/// The number that eight big-endian bytes encode.
pub open spec fn from_be_bytes(bytes: Seq<u8>) -> int {
    bytes[0] * 0x100_0000_0000_0000 + bytes[1] * 0x1_0000_0000_0000 + bytes[2]
        * 0x100_0000_0000 + bytes[3] * 0x1_0000_0000 + bytes[4] * 0x100_0000 + bytes[5]
        * 0x1_0000 + bytes[6] * 0x100 + bytes[7]
}

/// Decoding the big-endian bytes of a number gives the number back, so two
/// numbers with the same bytes are the same number.
pub proof fn be_bytes_round_trip(x: u64)
    ensures
        be_bytes(x).len() == 8,
        from_be_bytes(be_bytes(x)) == x,
{
    assert(x == (x / 0x100_0000_0000_0000 % 256) * 0x100_0000_0000_0000 + (x / 0x1_0000_0000_0000
        % 256) * 0x1_0000_0000_0000 + (x / 0x100_0000_0000 % 256) * 0x100_0000_0000 + (x
        / 0x1_0000_0000 % 256) * 0x1_0000_0000 + (x / 0x100_0000 % 256) * 0x100_0000 + (x
        / 0x1_0000 % 256) * 0x1_0000 + (x / 0x100 % 256) * 0x100 + x % 256) by (bit_vector);
}

/// The big-endian encoding is injective.
pub proof fn be_bytes_injective(x: u64, y: u64)
    requires
        be_bytes(x) == be_bytes(y),
    ensures
        x == y,
{
    be_bytes_round_trip(x);
    be_bytes_round_trip(y);
}

/// Appends the big-endian bytes of `x` to `out`.
pub fn push_be_bytes(out: &mut Vec<u8>, x: u64)
    ensures
        final(out)@ == old(out)@ + be_bytes(x),
{
    out.push((x / 0x100_0000_0000_0000 % 256) as u8);
    out.push((x / 0x1_0000_0000_0000 % 256) as u8);
    out.push((x / 0x100_0000_0000 % 256) as u8);
    out.push((x / 0x1_0000_0000 % 256) as u8);
    out.push((x / 0x100_0000 % 256) as u8);
    out.push((x / 0x1_0000 % 256) as u8);
    out.push((x / 0x100 % 256) as u8);
    out.push((x % 256) as u8);
    assert(out@ =~= old(out)@ + be_bytes(x));
}

/// Appends the little-endian bytes of `x` to `out`.
pub fn push_le_bytes(out: &mut Vec<u8>, x: u64)
    ensures
        final(out)@ == old(out)@ + le_bytes(x),
{
    out.push((x % 256) as u8);
    out.push((x / 0x100 % 256) as u8);
    out.push((x / 0x1_0000 % 256) as u8);
    out.push((x / 0x100_0000 % 256) as u8);
    out.push((x / 0x1_0000_0000 % 256) as u8);
    out.push((x / 0x100_0000_0000 % 256) as u8);
    out.push((x / 0x1_0000_0000_0000 % 256) as u8);
    out.push((x / 0x100_0000_0000_0000 % 256) as u8);
    assert(out@ =~= old(out)@ + le_bytes(x));
}

/// Appends the 64 bytes of a digest to `out`.
pub fn push_hash(out: &mut Vec<u8>, hash: &BlockHash)
    ensures
        final(out)@ == old(out)@ + hash@,
{
    let mut i: usize = 0;
    while i < 64
        invariant
            i <= 64,
            out@ == old(out)@ + hash@.subrange(0, i as int),
        decreases 64 - i,
    {
        out.push(hash[i]);
        i += 1;
        assert(out@ =~= old(out)@ + hash@.subrange(0, i as int));
    }
    assert(hash@.subrange(0, 64) =~= hash@);
}

/// Whether two digests hold the same bytes.
pub fn hash_eq(a: &BlockHash, b: &BlockHash) -> (same: bool)
    ensures
        same == (a@ == b@),
{
    let mut i: usize = 0;
    while i < 64
        invariant
            i <= 64,
            forall|j: int| 0 <= j < i ==> a@[j] == b@[j],
        decreases 64 - i,
    {
        if a[i] != b[i] {
            return false;
        }
        i += 1;
    }
    assert(a@ =~= b@);
    true
}

/// The sum of the bytes of a sequence.
pub open spec fn byte_sum(bytes: Seq<u8>) -> nat
    decreases bytes.len(),
{
    if bytes.len() == 0 {
        0
    } else {
        byte_sum(bytes.drop_last()) + bytes.last() as nat
    }
}

/// Adds up the bytes of a digest.
pub fn sum_hash_bytes(hash: &BlockHash) -> (sum: u32)
    ensures
        sum == byte_sum(hash@),
        sum <= 16320,
{
    let mut sum: u32 = 0;
    let mut i: usize = 0;
    while i < 64
        invariant
            i <= 64,
            sum == byte_sum(hash@.subrange(0, i as int)),
            sum <= 255 * i,
        decreases 64 - i,
    {
        proof {
            let next = hash@.subrange(0, i + 1);
            assert(next.drop_last() =~= hash@.subrange(0, i as int));
        }
        sum = sum + hash[i] as u32;
        i += 1;
    }
    assert(hash@.subrange(0, 64) =~= hash@);
    sum
}

} // verus!
