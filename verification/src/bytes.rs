//! Big-endian integers and byte buffers.
//!
//! The two spec functions are opaque: proofs about encoded chunks need only
//! that they are inverse to each other, which the two lemmas state. A proof
//! about given numbers reveals them.

use vstd::prelude::*;

verus! {

/// The number that the four bytes `s` stand for, most significant byte first.
#[verifier::opaque]
pub open spec fn be_u32(s: Seq<u8>) -> u32
    recommends
        s.len() == 4,
{
    (s[0] * 0x100_0000 + s[1] * 0x1_0000 + s[2] * 0x100 + s[3]) as u32
}

/// The four bytes that stand for `x`, most significant byte first.
#[verifier::opaque]
pub open spec fn u32_be_bytes(x: u32) -> Seq<u8> {
    seq![
        (x / 0x100_0000) as u8,
        (x / 0x1_0000 % 0x100) as u8,
        (x / 0x100 % 0x100) as u8,
        (x % 0x100) as u8,
    ]
}

/// Reading back the big-endian bytes of a number gives the number.
pub proof fn lemma_be_u32_of_bytes(x: u32)
    ensures
        u32_be_bytes(x).len() == 4,
        be_u32(u32_be_bytes(x)) == x,
{
    reveal(be_u32);
    reveal(u32_be_bytes);
}

/// Writing the number that four bytes stand for gives the four bytes.
pub proof fn lemma_bytes_of_be_u32(s: Seq<u8>)
    requires
        s.len() == 4,
    ensures
        u32_be_bytes(be_u32(s)) == s,
{
    reveal(be_u32);
    reveal(u32_be_bytes);
    lemma_digits(s[0], s[1], s[2], s[3]);
    assert(u32_be_bytes(be_u32(s)) =~= s);
}

/// The base-256 digits of a number written from four digits are those digits.
proof fn lemma_digits(a: u8, b: u8, c: u8, d: u8)
    by (bit_vector)
    ensures
        a * 0x100_0000 + b * 0x1_0000 + c * 0x100 + d <= 0xffff_ffff,
        (a * 0x100_0000 + b * 0x1_0000 + c * 0x100 + d) / 0x100_0000 == a,
        (a * 0x100_0000 + b * 0x1_0000 + c * 0x100 + d) / 0x1_0000 % 0x100 == b,
        (a * 0x100_0000 + b * 0x1_0000 + c * 0x100 + d) / 0x100 % 0x100 == c,
        (a * 0x100_0000 + b * 0x1_0000 + c * 0x100 + d) % 0x100 == d,
{
}

/// Reads a big-endian `u32` from a slice of four bytes.
pub fn u32_from_be_bytes(bytes: &[u8]) -> (x: u32)
    requires
        bytes@.len() == 4,
    ensures
        x == be_u32(bytes@),
{
    proof {
        reveal(be_u32);
    }
    let b0: u32 = bytes[0] as u32;
    let b1: u32 = bytes[1] as u32;
    let b2: u32 = bytes[2] as u32;
    let b3: u32 = bytes[3] as u32;
    b0 * 0x100_0000 + b1 * 0x1_0000 + b2 * 0x100 + b3
}

/// Writes `x` as four bytes, most significant byte first.
pub fn u32_to_be_bytes(x: u32) -> (r: [u8; 4])
    ensures
        r@ == u32_be_bytes(x),
{
    let r = [
        (x / 0x100_0000) as u8,
        (x / 0x1_0000 % 0x100) as u8,
        (x / 0x100 % 0x100) as u8,
        (x % 0x100) as u8,
    ];
    proof {
        reveal(u32_be_bytes);
    }
    assert(r@ =~= u32_be_bytes(x));
    r
}

/// Whether two slices hold the same bytes.
pub fn same_bytes(a: &[u8], b: &[u8]) -> (r: bool)
    ensures
        r == (a@ == b@),
{
    if a.len() != b.len() {
        return false;
    }
    let mut i: usize = 0;
    while i < a.len()
        invariant
            i <= a@.len(),
            a@.len() == b@.len(),
            forall|j: int| 0 <= j < i ==> a@[j] == b@[j],
        decreases a@.len() - i,
    {
        if a[i] != b[i] {
            return false;
        }
        i += 1;
    }
    assert(a@ =~= b@);
    true
}

/// Appends the bytes of `src` to `dst`.
pub fn extend_bytes(dst: &mut Vec<u8>, src: &[u8])
    ensures
        final(dst)@ == old(dst)@ + src@,
{
    let mut i: usize = 0;
    while i < src.len()
        invariant
            i <= src@.len(),
            dst@ == old(dst)@ + src@.subrange(0, i as int),
        decreases src@.len() - i,
    {
        dst.push(src[i]);
        i += 1;
    }
}

} // verus!
