//! Bytes: numbers in a fixed byte order, and appending.

use vstd::prelude::*;

verus! {

/// The bytes of `x`, most significant first.
#[verifier::opaque]
pub open spec fn be32(x: u32) -> Seq<u8> {
    seq![
        (x / 0x100_0000) as u8,
        (x / 0x1_0000 % 0x100) as u8,
        (x / 0x100 % 0x100) as u8,
        (x % 0x100) as u8,
    ]
}

/// The number whose bytes are `b[at..at + 4]`, most significant first.
pub open spec fn read_be32(b: Seq<u8>, at: int) -> nat {
    (b[at] * 0x100_0000 + b[at + 1] * 0x1_0000 + b[at + 2] * 0x100 + b[at + 3]) as nat
}

/// The bytes of `x`, least significant first.
#[verifier::opaque]
pub open spec fn le16(x: u16) -> Seq<u8> {
    seq![(x % 0x100) as u8, (x / 0x100) as u8]
}

/// The number whose bytes are `b[at..at + 2]`, least significant first.
pub open spec fn read_le16(b: Seq<u8>, at: int) -> nat {
    (b[at] + b[at + 1] * 0x100) as nat
}

/// A number takes four bytes and reads back from them, wherever they stand.
pub proof fn law_be32_reads_back(x: u32, before: Seq<u8>, after: Seq<u8>)
    ensures
        be32(x).len() == 4,
        read_be32(before + be32(x) + after, before.len() as int) == x,
{
    reveal(be32);
    let all = before + be32(x) + after;
    let at = before.len() as int;
    assert(all[at] == be32(x)[0]);
    assert(all[at + 1] == be32(x)[1]);
    assert(all[at + 2] == be32(x)[2]);
    assert(all[at + 3] == be32(x)[3]);
}

/// The first of the four bytes weighs most: each weighs 256 times what the next one does.
pub proof fn law_be32_puts_the_heaviest_byte_first(x: u32)
    ensures
        be32(x).len() == 4,
        x == be32(x)[0] * 16_777_216 + be32(x)[1] * 65_536 + be32(x)[2] * 256 + be32(x)[3],
{
    reveal(be32);
}

/// The first of the two bytes weighs least: the second weighs 256 times what it does.
pub proof fn law_le16_puts_the_lightest_byte_first(x: u16)
    ensures
        le16(x).len() == 2,
        x == le16(x)[0] + le16(x)[1] * 256,
{
    reveal(le16);
}

/// A number takes two bytes and reads back from them, wherever they stand.
pub proof fn law_le16_reads_back(x: u16, before: Seq<u8>, after: Seq<u8>)
    ensures
        le16(x).len() == 2,
        read_le16(before + le16(x) + after, before.len() as int) == x,
{
    reveal(le16);
    let all = before + le16(x) + after;
    let at = before.len() as int;
    assert(all[at] == le16(x)[0]);
    assert(all[at + 1] == le16(x)[1]);
}

proof fn lemma_word_of(b0: u8, b1: u8, b2: u8, b3: u8, x: u32)
    by (bit_vector)
    requires
        x == b0 * 0x100_0000 + b1 * 0x1_0000 + b2 * 0x100 + b3,
    ensures
        x / 0x100_0000 == b0,
        x / 0x1_0000 % 0x100 == b1,
        x / 0x100 % 0x100 == b2,
        x % 0x100 == b3,
{
}

/// The number that four bytes make up, most significant first.
pub fn word_of(b0: u8, b1: u8, b2: u8, b3: u8) -> (x: u32)
    ensures
        be32(x) == seq![b0, b1, b2, b3],
        x == b0 * 16_777_216 + b1 * 65_536 + b2 * 256 + b3,
{
    let x: u32 = b0 as u32 * 0x100_0000 + b1 as u32 * 0x1_0000 + b2 as u32 * 0x100 + b3 as u32;
    proof {
        reveal(be32);
        lemma_word_of(b0, b1, b2, b3, x);
        assert(be32(x) =~= seq![b0, b1, b2, b3]);
    }
    x
}

/// Appends bytes.
pub fn append(out: &mut Vec<u8>, data: &[u8])
    ensures
        final(out)@ == old(out)@ + data@,
{
    out.extend_from_slice(data);
    assert(final(out)@ =~= old(out)@ + data@);
}

/// Appends a number, most significant byte first.
pub fn append_be32(out: &mut Vec<u8>, x: u32)
    ensures
        final(out)@ == old(out)@ + be32(x),
{
    out.push((x / 0x100_0000) as u8);
    out.push((x / 0x1_0000 % 0x100) as u8);
    out.push((x / 0x100 % 0x100) as u8);
    out.push((x % 0x100) as u8);
    proof {
        reveal(be32);
        assert(final(out)@ =~= old(out)@ + be32(x));
    }
}

/// Appends a number, least significant byte first.
pub fn append_le16(out: &mut Vec<u8>, x: u16)
    ensures
        final(out)@ == old(out)@ + le16(x),
{
    out.push((x % 0x100) as u8);
    out.push((x / 0x100) as u8);
    proof {
        reveal(le16);
        assert(final(out)@ =~= old(out)@ + le16(x));
    }
}

} // verus!
