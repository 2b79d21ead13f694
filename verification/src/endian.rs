//! Big-endian encoding of 32-bit integers.
//!
//! The two functions that define the encoding are opaque: proofs elsewhere go
//! by the lemmas below, and a proof that needs the arithmetic reveals them.

use vstd::prelude::*;

verus! {

/// The integer whose big-endian encoding is the first four bytes of `bytes`.
#[verifier::opaque]
pub open spec fn be_u32(bytes: Seq<u8>) -> u32
    recommends
        bytes.len() >= 4,
{
    (bytes[0] as int * 0x100_0000 + bytes[1] as int * 0x1_0000 + bytes[2] as int * 0x100
        + bytes[3] as int) as u32
}

/// The four bytes that encode `value`, most significant first.
#[verifier::opaque]
pub open spec fn be_bytes(value: u32) -> Seq<u8> {
    seq![
        (value / 0x100_0000) as u8,
        (value / 0x1_0000 % 0x100) as u8,
        (value / 0x100 % 0x100) as u8,
        (value % 0x100) as u8,
    ]
}

/// Decoding undoes encoding.
pub proof fn lemma_be_u32_of_be_bytes(value: u32)
    ensures
        be_bytes(value).len() == 4,
        be_u32(be_bytes(value)) == value,
{
    reveal(be_u32);
    reveal(be_bytes);
}

/// The digits of a number written in base 256 are recovered by division.
proof fn lemma_base_256_digits(b0: int, b1: int, b2: int, b3: int)
    requires
        0 <= b0 < 0x100,
        0 <= b1 < 0x100,
        0 <= b2 < 0x100,
        0 <= b3 < 0x100,
    ensures
        ({
            let v = b0 * 0x100_0000 + b1 * 0x1_0000 + b2 * 0x100 + b3;
            &&& 0 <= v <= 0xffff_ffff
            &&& v / 0x100_0000 == b0
            &&& v / 0x1_0000 % 0x100 == b1
            &&& v / 0x100 % 0x100 == b2
            &&& v % 0x100 == b3
        }),
{
    let v = b0 * 0x100_0000 + b1 * 0x1_0000 + b2 * 0x100 + b3;
    let low3 = b1 * 0x1_0000 + b2 * 0x100 + b3;
    let low2 = b2 * 0x100 + b3;
    assert(v == 0x100_0000 * b0 + low3 && 0 <= low3 < 0x100_0000);
    assert(v / 0x100_0000 == b0);
    let high2 = b0 * 0x100 + b1;
    assert(v == 0x1_0000 * high2 + low2 && 0 <= low2 < 0x1_0000);
    assert(v / 0x1_0000 == high2);
    assert(high2 % 0x100 == b1);
    let high3 = b0 * 0x1_0000 + b1 * 0x100 + b2;
    assert(v == 0x100 * high3 + b3);
    assert(v / 0x100 == high3);
    assert(high3 == 0x100 * high2 + b2);
    assert(high3 % 0x100 == b2);
    assert(v % 0x100 == b3);
}

/// Encoding undoes decoding, on exactly four bytes.
pub proof fn lemma_be_bytes_of_be_u32(bytes: Seq<u8>)
    requires
        bytes.len() == 4,
    ensures
        be_bytes(be_u32(bytes)) == bytes,
{
    reveal(be_u32);
    reveal(be_bytes);
    lemma_base_256_digits(bytes[0] as int, bytes[1] as int, bytes[2] as int, bytes[3] as int);
    assert(be_bytes(be_u32(bytes)) =~= bytes);
}

/// Two four-byte fields that decode to the same integer are the same bytes.
pub proof fn lemma_be_u32_injective(a: Seq<u8>, b: Seq<u8>)
    requires
        a.len() == 4,
        b.len() == 4,
        be_u32(a) == be_u32(b),
    ensures
        a == b,
{
    lemma_be_bytes_of_be_u32(a);
    lemma_be_bytes_of_be_u32(b);
}

/// Reads the big-endian integer that starts at `at`.
pub fn read_be_u32(bytes: &[u8], at: usize) -> (value: u32)
    requires
        at + 4 <= bytes@.len(),
    ensures
        value == be_u32(bytes@.subrange(at as int, at + 4)),
{
    proof {
        reveal(be_u32);
    }
    let b0 = bytes[at] as u32;
    let b1 = bytes[at + 1] as u32;
    let b2 = bytes[at + 2] as u32;
    let b3 = bytes[at + 3] as u32;
    b0 * 0x100_0000 + b1 * 0x1_0000 + b2 * 0x100 + b3
}

/// Appends the big-endian encoding of `value` to `out`.
pub fn push_be_u32(out: &mut Vec<u8>, value: u32)
    ensures
        final(out)@ == old(out)@ + be_bytes(value),
{
    out.push((value / 0x100_0000) as u8);
    out.push((value / 0x1_0000 % 0x100) as u8);
    out.push((value / 0x100 % 0x100) as u8);
    out.push((value % 0x100) as u8);
    proof {
        reveal(be_bytes);
        assert(out@ =~= old(out)@ + be_bytes(value));
    }
}

} // verus!
