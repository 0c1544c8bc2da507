//! Byte-level building blocks shared by the frame and message codecs.
//!
//! Every length on the wire is an unsigned 32-bit integer in big-endian order.

use vstd::prelude::*;

verus! {

/// Number of bytes of a length on the wire.
pub const LEN_BYTES: usize = 4;

/// The four bytes that stand for `n`, most significant first. Only the low
/// 32 bits of `n` are represented.
#[verifier::opaque]
pub open spec fn be32(n: nat) -> Seq<u8> {
    seq![
        (n / 0x100_0000 % 0x100) as u8,
        (n / 0x1_0000 % 0x100) as u8,
        (n / 0x100 % 0x100) as u8,
        (n % 0x100) as u8,
    ]
}

/// The number that the first four bytes of `bytes` stand for.
#[verifier::opaque]
pub open spec fn be32_value(bytes: Seq<u8>) -> nat {
    (bytes[0] as nat) * 0x100_0000 + (bytes[1] as nat) * 0x1_0000 + (bytes[2] as nat) * 0x100
        + (bytes[3] as nat)
}

/// A number is written as four bytes.
pub broadcast proof fn lemma_be32_len(n: nat)
    ensures
        #[trigger] be32(n).len() == LEN_BYTES,
{
    reveal(be32);
}

/// Reading back what was written gives the number that was written.
pub proof fn lemma_be32_value_of_be32(n: nat)
    requires
        n <= u32::MAX,
    ensures
        be32(n).len() == LEN_BYTES,
        be32_value(be32(n)) == n,
{
    reveal(be32);
    reveal(be32_value);
}

/// Only the first four bytes count for `be32_value`.
pub proof fn lemma_be32_value_prefix(bytes: Seq<u8>, tail: Seq<u8>)
    requires
        bytes.len() >= LEN_BYTES,
    ensures
        be32_value(bytes + tail) == be32_value(bytes),
        be32_value(bytes.subrange(0, LEN_BYTES as int)) == be32_value(bytes),
{
    reveal(be32_value);
}

/// Appends the four bytes of `n` to `out`.
pub fn push_be32(out: &mut Vec<u8>, n: u32)
    ensures
        final(out)@ == old(out)@ + be32(n as nat),
{
    out.push((n / 0x100_0000) as u8);
    out.push((n / 0x1_0000 % 0x100) as u8);
    out.push((n / 0x100 % 0x100) as u8);
    out.push((n % 0x100) as u8);
    proof {
        reveal(be32);
    }
    assert(out@ =~= old(out)@ + be32(n as nat));
}

/// Reads the number that the four bytes from position `at` stand for.
pub fn read_be32(buf: &[u8], at: usize) -> (n: u32)
    requires
        at + LEN_BYTES <= buf@.len(),
    ensures
        n == be32_value(buf@.skip(at as int)),
{
    let b0: u32 = buf[at] as u32;
    let b1: u32 = buf[at + 1] as u32;
    let b2: u32 = buf[at + 2] as u32;
    let b3: u32 = buf[at + 3] as u32;
    proof {
        reveal(be32_value);
    }
    b0 * 0x100_0000 + b1 * 0x1_0000 + b2 * 0x100 + b3
}

/// Appends a copy of `src` to `out`.
pub fn push_all(out: &mut Vec<u8>, src: &[u8])
    ensures
        final(out)@ == old(out)@ + src@,
{
    out.extend_from_slice(src);
    assert(out@ =~= old(out)@ + src@);
}

} // verus!
