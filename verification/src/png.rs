//! PNG output for screenshots.
//!
//! What is written is the smallest valid PNG: no filtering, and a `zlib` stream made of uncompressed
//! "stored" deflate blocks. The files are a little larger than the raw pixels and unambiguous.
//!
//! Input rows are top-to-bottom RGBA8, not premultiplied.

use crate::bytes::{append, append_be32, append_le16};
use crate::text::push_decimal;
use vstd::prelude::*;
use vstd::string::StringExecFns;

verus! {

/// The reflected generator polynomial of the chunk checksum.
pub const POLYNOMIAL: u32 = 0xEDB8_8320;

/// One bit fed into the checksum register: the bit that leaves the register, compared with the
/// message bit, decides whether the polynomial is subtracted.
pub open spec fn crc_bit(register: u32, bit: bool) -> u32 {
    if (register & 1 == 1) != bit {
        (register >> 1) ^ POLYNOMIAL
    } else {
        register >> 1
    }
}

/// The first `n` bits of a byte fed into the register, least significant first.
pub open spec fn crc_bits(register: u32, byte: u8, n: nat) -> u32
    decreases n,
{
    if n == 0 {
        register
    } else {
        crc_bit(crc_bits(register, byte, (n - 1) as nat), (byte >> ((n - 1) as u8)) & 1 == 1)
    }
}

/// The register after a message, starting from all ones.
pub open spec fn crc_register(data: Seq<u8>) -> u32
    decreases data.len(),
{
    if data.len() == 0 {
        0xFFFF_FFFF
    } else {
        crc_bits(crc_register(data.drop_last()), data.last(), 8)
    }
}

/// CRC-32 of a message: the complement of the register.
pub open spec fn spec_crc32(data: Seq<u8>) -> u32 {
    !crc_register(data)
}

/// The bits of a word in the other direction.
pub open spec fn mirrored(x: u32) -> u32 {
    let pairs = ((x >> 1) & 0x5555_5555) | ((x & 0x5555_5555) << 1);
    let nibbles = ((pairs >> 2) & 0x3333_3333) | ((pairs & 0x3333_3333) << 2);
    let bytes = ((nibbles >> 4) & 0x0f0f_0f0f) | ((nibbles & 0x0f0f_0f0f) << 4);
    let halves = ((bytes >> 8) & 0x00ff_00ff) | ((bytes & 0x00ff_00ff) << 8);
    (halves >> 16) | (halves << 16)
}

/// One step of a long division of polynomials over the two-element field, by the generator of degree 32
/// whose other coefficients are `0x04C11DB7`: the remainder moves up by one degree, and the generator is
/// subtracted if the coefficient that leaves and the next one of the message differ.
pub open spec fn divided(remainder: u32, bit: bool) -> u32 {
    if (remainder >= 0x8000_0000) != bit {
        (remainder << 1) ^ 0x04C1_1DB7
    } else {
        remainder << 1
    }
}

/// The remainder after a byte, whose least significant bit comes first.
pub open spec fn divided_byte(remainder: u32, byte: u8) -> u32 {
    let r0 = divided(remainder, byte % 2 == 1);
    let r1 = divided(r0, byte / 2 % 2 == 1);
    let r2 = divided(r1, byte / 4 % 2 == 1);
    let r3 = divided(r2, byte / 8 % 2 == 1);
    let r4 = divided(r3, byte / 16 % 2 == 1);
    let r5 = divided(r4, byte / 32 % 2 == 1);
    let r6 = divided(r5, byte / 64 % 2 == 1);
    divided(r6, byte / 128 == 1)
}

/// The remainder after a message, starting from all ones.
pub open spec fn remainder(data: Seq<u8>) -> u32
    decreases data.len(),
{
    if data.len() == 0 {
        0xFFFF_FFFF
    } else {
        divided_byte(remainder(data.drop_last()), data.last())
    }
}

/// Whether `sum` is the checksum that a chunk whose type and data are `data` ends with: the complement of
/// the remainder, in the other direction.
pub open spec fn is_crc32(sum: u32, data: Seq<u8>) -> bool {
    sum ^ mirrored(remainder(data)) == 0xFFFF_FFFF
}

proof fn lemma_mirrored_step(register: u32, remainder: u32, bit: bool)
    by (bit_vector)
    requires
        register == mirrored(remainder),
    ensures
        crc_bit(register, bit) == mirrored(divided(remainder, bit)),
{
}

proof fn lemma_mirrored_byte(register: u32, remainder: u32, byte: u8)
    requires
        register == mirrored(remainder),
    ensures
        crc_bits(register, byte, 8) == mirrored(divided_byte(remainder, byte)),
{
    reveal_with_fuel(crc_bits, 9);
    assert((byte >> 0u8) & 1 == byte % 2) by (bit_vector);
    assert((byte >> 1u8) & 1 == byte / 2 % 2) by (bit_vector);
    assert((byte >> 2u8) & 1 == byte / 4 % 2) by (bit_vector);
    assert((byte >> 3u8) & 1 == byte / 8 % 2) by (bit_vector);
    assert((byte >> 4u8) & 1 == byte / 16 % 2) by (bit_vector);
    assert((byte >> 5u8) & 1 == byte / 32 % 2) by (bit_vector);
    assert((byte >> 6u8) & 1 == byte / 64 % 2) by (bit_vector);
    assert((byte >> 7u8) & 1 == byte / 128) by (bit_vector);
    let r0 = divided(remainder, byte % 2 == 1);
    let r1 = divided(r0, byte / 2 % 2 == 1);
    let r2 = divided(r1, byte / 4 % 2 == 1);
    let r3 = divided(r2, byte / 8 % 2 == 1);
    let r4 = divided(r3, byte / 16 % 2 == 1);
    let r5 = divided(r4, byte / 32 % 2 == 1);
    let r6 = divided(r5, byte / 64 % 2 == 1);
    lemma_mirrored_step(register, remainder, byte % 2 == 1);
    lemma_mirrored_step(crc_bits(register, byte, 1), r0, byte / 2 % 2 == 1);
    lemma_mirrored_step(crc_bits(register, byte, 2), r1, byte / 4 % 2 == 1);
    lemma_mirrored_step(crc_bits(register, byte, 3), r2, byte / 8 % 2 == 1);
    lemma_mirrored_step(crc_bits(register, byte, 4), r3, byte / 16 % 2 == 1);
    lemma_mirrored_step(crc_bits(register, byte, 5), r4, byte / 32 % 2 == 1);
    lemma_mirrored_step(crc_bits(register, byte, 6), r5, byte / 64 % 2 == 1);
    lemma_mirrored_step(crc_bits(register, byte, 7), r6, byte / 128 == 1);
}

proof fn lemma_register_mirrors_remainder(data: Seq<u8>)
    ensures
        crc_register(data) == mirrored(remainder(data)),
    decreases data.len(),
{
    if data.len() == 0 {
        assert(0xFFFF_FFFFu32 == mirrored(0xFFFF_FFFF)) by (bit_vector);
    } else {
        lemma_register_mirrors_remainder(data.drop_last());
        lemma_mirrored_byte(
            crc_register(data.drop_last()),
            remainder(data.drop_last()),
            data.last(),
        );
    }
}

/// The chunk checksum is the complement of the remainder that the message leaves when it is divided, as a
/// polynomial, by the generator.
pub proof fn law_the_chunk_checksum_is_a_remainder(data: Seq<u8>)
    ensures
        is_crc32(spec_crc32(data), data),
{
    lemma_register_mirrors_remainder(data);
    let register = crc_register(data);
    assert((!register) ^ register == 0xFFFF_FFFF) by (bit_vector);
}

/// CRC-32 as PNG uses it (reflected, polynomial `0xEDB88320`).
pub fn crc32(data: &[u8]) -> (crc: u32)
    ensures
        crc == spec_crc32(data@),
        is_crc32(crc, data@),
{
    proof {
        law_the_chunk_checksum_is_a_remainder(data@);
    }
    let mut crc: u32 = 0xFFFF_FFFF;
    let mut i: usize = 0;
    assert(data@.take(0) =~= Seq::<u8>::empty());
    while i < data.len()
        invariant
            i <= data@.len(),
            crc == crc_register(data@.take(i as int)),
        decreases data@.len() - i,
    {
        let ghost before = crc;
        let byte: u8 = data[i];
        crc = crc ^ byte as u32;
        let mut k: u8 = 0;
        assert(byte >> 0u8 == byte) by (bit_vector);
        while k < 8
            invariant
                k <= 8,
                crc == crc_bits(before, byte, k as nat) ^ ((byte >> k) as u32),
            decreases 8 - k,
        {
            let ghost register = crc_bits(before, byte, k as nat);
            proof {
                assert(((byte >> k) & 1 == 1) == ((((byte >> k) as u32) & 1) == 1)) by (bit_vector)
                    requires
                        k < 8,
                ;
                assert(((byte >> k) as u32) >> 1 == (byte >> ((k + 1) as u8)) as u32) by (bit_vector)
                    requires
                        k < 8,
                ;
                let rest = (byte >> k) as u32;
                assert(((register ^ rest) & 1 == 1) == ((register & 1 == 1) != (rest & 1 == 1))) by (bit_vector);
                assert((register ^ rest) >> 1 == (register >> 1) ^ (rest >> 1)) by (bit_vector);
                assert(((register >> 1) ^ (rest >> 1)) ^ POLYNOMIAL == ((register >> 1) ^ POLYNOMIAL)
                    ^ (rest >> 1)) by (bit_vector);
            }
            crc = if crc & 1 == 1 {
                (crc >> 1) ^ POLYNOMIAL
            } else {
                crc >> 1
            };
            k += 1;
        }
        proof {
            let register = crc_bits(before, byte, 8);
            assert((byte >> 8u8) as u32 == 0) by (bit_vector);
            assert(register ^ 0 == register) by (bit_vector);
            assert(data@.take(i as int + 1).drop_last() =~= data@.take(i as int));
            assert(data@.take(i as int + 1).last() == byte);
        }
        i += 1;
    }
    assert(data@.take(data@.len() as int) =~= data@);
    !crc
}

/// The modulus of the stream checksum: the largest prime below 2^16.
pub const ADLER_MOD: u32 = 65_521;

/// One more than the sum of the bytes.
pub open spec fn adler_a(data: Seq<u8>) -> nat
    decreases data.len(),
{
    if data.len() == 0 {
        1
    } else {
        adler_a(data.drop_last()) + data.last() as nat
    }
}

/// The sum of `adler_a` over all non-empty prefixes.
pub open spec fn adler_b(data: Seq<u8>) -> nat
    decreases data.len(),
{
    if data.len() == 0 {
        0
    } else {
        adler_b(data.drop_last()) + adler_a(data)
    }
}

/// Adler-32: the two sums modulo a prime, side by side.
pub open spec fn spec_adler32(data: Seq<u8>) -> u32 {
    ((adler_b(data) % ADLER_MOD as nat) * 0x1_0000 + adler_a(data) % ADLER_MOD as nat) as u32
}

proof fn lemma_reduce_early(x: nat, y: nat)
    ensures
        (x % 65_521 + y) % 65_521 == (x + y) % 65_521,
{
    vstd::arithmetic::div_mod::lemma_add_mod_noop_right(y as int, x as int, 65_521);
}

/// The sum of the bytes.
pub open spec fn byte_sum(data: Seq<u8>) -> nat
    decreases data.len(),
{
    if data.len() == 0 {
        0
    } else {
        data[0] as nat + byte_sum(data.skip(1))
    }
}

/// The sum of the bytes, each as often as there are bytes from it to the end.
pub open spec fn weighted_sum(data: Seq<u8>) -> nat
    decreases data.len(),
{
    if data.len() == 0 {
        0
    } else {
        data.len() * data[0] as nat + weighted_sum(data.skip(1))
    }
}

/// Whether `sum` is the checksum that a zlib stream of `data` ends with.
pub open spec fn is_adler32(sum: nat, data: Seq<u8>) -> bool {
    &&& sum % 65_536 == (1 + byte_sum(data)) % 65_521
    &&& sum / 65_536 == (data.len() + weighted_sum(data)) % 65_521
}

proof fn lemma_sums_of_push(data: Seq<u8>, byte: u8)
    ensures
        byte_sum(data.push(byte)) == byte_sum(data) + byte,
        weighted_sum(data.push(byte)) == weighted_sum(data) + byte_sum(data) + byte,
    decreases data.len(),
{
    let all = data.push(byte);
    if data.len() == 0 {
        reveal_with_fuel(byte_sum, 2);
        reveal_with_fuel(weighted_sum, 2);
        assert(all.skip(1) =~= data);
    } else {
        assert(all.skip(1) =~= data.skip(1).push(byte));
        lemma_sums_of_push(data.skip(1), byte);
        assert((data.len() + 1) * data[0] as nat == data.len() * data[0] as nat + data[0] as nat)
            by (nonlinear_arith);
    }
}

proof fn lemma_adler_sums(data: Seq<u8>)
    ensures
        adler_a(data) == 1 + byte_sum(data),
        adler_b(data) == data.len() + weighted_sum(data),
    decreases data.len(),
{
    if data.len() > 0 {
        lemma_adler_sums(data.drop_last());
        lemma_sums_of_push(data.drop_last(), data.last());
        assert(data.drop_last().push(data.last()) =~= data);
    }
}

/// The halves of the stream checksum are two sums modulo 65521: the low half is one plus the sum of the
/// bytes, the high half the length plus the sum of the bytes, each as often as there are bytes from it to
/// the end.
pub proof fn law_the_stream_checksum_is_two_sums(data: Seq<u8>)
    ensures
        spec_adler32(data) as nat % 65_536 == (1 + byte_sum(data)) % 65_521,
        spec_adler32(data) as nat / 65_536 == (data.len() + weighted_sum(data)) % 65_521,
{
    lemma_adler_sums(data);
}

/// Adler-32 checksum, the one zlib uses.
pub fn adler32(data: &[u8]) -> (sum: u32)
    ensures
        sum == spec_adler32(data@),
        is_adler32(sum as nat, data@),
{
    proof {
        law_the_stream_checksum_is_two_sums(data@);
    }
    let mut a: u32 = 1;
    let mut b: u32 = 0;
    let mut i: usize = 0;
    assert(data@.take(0) =~= Seq::<u8>::empty());
    while i < data.len()
        invariant
            i <= data@.len(),
            a == adler_a(data@.take(i as int)) % 65_521,
            b == adler_b(data@.take(i as int)) % 65_521,
        decreases data@.len() - i,
    {
        let ghost prefix = data@.take(i as int + 1);
        assert(prefix.drop_last() =~= data@.take(i as int));
        assert(prefix.last() == data@[i as int]);
        proof {
            let (sum, sums) = (adler_a(prefix.drop_last()), adler_b(prefix.drop_last()));
            lemma_reduce_early(sum, data@[i as int] as nat);
            lemma_reduce_early(sums, adler_a(prefix) % 65_521);
            lemma_reduce_early(adler_a(prefix), sums);
        }
        a = (a + data[i] as u32) % ADLER_MOD;
        b = (b + a) % ADLER_MOD;
        i += 1;
    }
    assert(data@.take(data@.len() as int) =~= data@);
    assert((b << 16) | a == b * 0x1_0000 + a) by (bit_vector)
        requires
            a < 0x1_0000,
            b < 0x1_0000,
    ;
    (b << 16) | a
}

/// The most bytes that a stored block holds.
pub const MAX_BLOCK: usize = 65_535;

/// A stored block: a flag that marks the last block, the length, its complement, and the bytes.
pub open spec fn block(last: bool, data: Seq<u8>) -> Seq<u8> {
    seq![
        if last {
            1u8
        } else {
            0u8
        },
    ] + crate::bytes::le16(data.len() as u16) + crate::bytes::le16((65_535 - data.len()) as u16) + data
}

/// The data in stored blocks: full ones, then one that is marked as the last. A stream holds at least
/// one block, however little data there is.
pub open spec fn blocks(data: Seq<u8>) -> Seq<u8>
    decreases data.len(),
{
    if data.len() <= 65_535 {
        block(true, data)
    } else {
        block(false, data.take(65_535)) + blocks(data.skip(65_535))
    }
}

/// The zlib stream of stored blocks: a two-byte header, the blocks, the checksum.
pub open spec fn stream(data: Seq<u8>) -> Seq<u8> {
    seq![0x78u8, 0x01] + blocks(data) + crate::bytes::be32(spec_adler32(data))
}

/// Builds a zlib stream whose deflate payload is a sequence of stored (uncompressed) blocks.
///
/// A stored block carries a 16-bit length, so the payload is split into blocks of at most 65535
/// bytes. Only the last block is marked final: a mark in the wrong place decodes partially.
pub fn zlib_stored(data: &[u8]) -> (out: Vec<u8>)
    ensures
        out@ == stream(data@),
{
    let mut out: Vec<u8> = Vec::new();
    // Deflate, 32 KiB window, no preset dictionary; the two bytes are a multiple of 31 together.
    out.push(0x78);
    out.push(0x01);
    let ghost header = out@;
    assert(header =~= seq![0x78u8, 0x01]);
    let mut offset: usize = 0;
    let mut done = false;
    assert(data@.skip(0) =~= data@);
    while !done
        invariant
            offset <= data@.len(),
            !done ==> out@ + blocks(data@.skip(offset as int)) == header + blocks(data@),
            done ==> out@ == header + blocks(data@),
        decreases data@.len() - offset + (if done { 0int } else { 1int }),
    {
        let ghost rest = data@.skip(offset as int);
        let ghost before = out@;
        let left: usize = data.len() - offset;
        let last = left <= MAX_BLOCK;
        let len: usize = if last {
            left
        } else {
            MAX_BLOCK
        };
        out.push(
            if last {
                1
            } else {
                0
            },
        );
        append_le16(&mut out, len as u16);
        append_le16(&mut out, (MAX_BLOCK - len) as u16);
        append(&mut out, vstd::slice::slice_subrange(data, offset, offset + len));
        proof {
            let part = data@.subrange(offset as int, offset + len);
            assert(out@ =~= before + block(last, part));
            if last {
                assert(part =~= rest);
            } else {
                assert(part =~= rest.take(65_535));
                assert(rest.skip(65_535) =~= data@.skip(offset + len));
                assert(out@ + blocks(data@.skip(offset + len)) =~= before + blocks(rest));
            }
        }
        offset = offset + len;
        done = last;
    }
    append_be32(&mut out, adler32(data));
    out
}

/// The data in a row of stored blocks and what stands behind the last of them, if the blocks are
/// well-formed.
pub open spec fn read_blocks(s: Seq<u8>) -> Option<(Seq<u8>, Seq<u8>)>
    decreases s.len(),
{
    let len = crate::bytes::read_le16(s, 1);
    if s.len() < 5 || s[0] > 1 || len + crate::bytes::read_le16(s, 3) != 65_535 || s.len() < 5 + len {
        None
    } else {
        let data = s.subrange(5, 5 + len as int);
        let rest = s.skip(5 + len as int);
        if s[0] == 1 {
            Some((data, rest))
        } else {
            match read_blocks(rest) {
                None => None,
                Some((more, end)) => Some((data + more, end)),
            }
        }
    }
}

/// The data in a zlib stream of stored blocks, if the stream is well-formed, its checksum is right and
/// nothing follows it.
#[verifier::opaque]
pub open spec fn read_stream(s: Seq<u8>) -> Option<Seq<u8>> {
    if s.len() < 2 || s[0] % 16 != 8 || (s[0] * 256 + s[1]) % 31 != 0 {
        None
    } else {
        match read_blocks(s.skip(2)) {
            None => None,
            Some((data, end)) => if end.len() == 4 && is_adler32(crate::bytes::read_be32(end, 0), data) {
                Some(data)
            } else {
                None
            },
        }
    }
}

proof fn lemma_read_block(last: bool, data: Seq<u8>, rest: Seq<u8>)
    requires
        data.len() <= 65_535,
    ensures
        ({
            let s = block(last, data) + rest;
            &&& s.len() >= 5 + data.len()
            &&& s[0] == (if last { 1u8 } else { 0u8 })
            &&& crate::bytes::read_le16(s, 1) == data.len()
            &&& crate::bytes::read_le16(s, 3) == 65_535 - data.len()
            &&& s.subrange(5, 5 + data.len() as int) == data
            &&& s.skip(5 + data.len() as int) == rest
        }),
{
    let s = block(last, data) + rest;
    let flag = if last {
        1u8
    } else {
        0u8
    };
    let len = crate::bytes::le16(data.len() as u16);
    let complement = crate::bytes::le16((65_535 - data.len()) as u16);
    crate::bytes::law_le16_reads_back(data.len() as u16, seq![flag], complement + data + rest);
    crate::bytes::law_le16_reads_back(
        (65_535 - data.len()) as u16,
        seq![flag] + len,
        data + rest,
    );
    assert(s =~= seq![flag] + len + (complement + data + rest));
    assert(s =~= (seq![flag] + len) + complement + (data + rest));
    assert(s.subrange(5, 5 + data.len() as int) =~= data);
    assert(s.skip(5 + data.len() as int) =~= rest);
}

#[verifier::rlimit(40)]
proof fn lemma_blocks_read_back(data: Seq<u8>, rest: Seq<u8>)
    ensures
        read_blocks(blocks(data) + rest) == Some((data, rest)),
    decreases data.len(),
{
    if data.len() <= 65_535 {
        lemma_read_block(true, data, rest);
    } else {
        let head = data.take(65_535);
        let tail = data.skip(65_535);
        lemma_read_block(false, head, blocks(tail) + rest);
        lemma_blocks_read_back(tail, rest);
        assert(blocks(data) + rest =~= block(false, head) + (blocks(tail) + rest));
        assert(head + tail =~= data);
    }
}

proof fn lemma_stream_reads(s: Seq<u8>, data: Seq<u8>, end: Seq<u8>)
    requires
        s.len() >= 2,
        s[0] == 0x78,
        s[1] == 1,
        read_blocks(s.skip(2)) == Some((data, end)),
        end.len() == 4,
        is_adler32(crate::bytes::read_be32(end, 0), data),
    ensures
        read_stream(s) == Some(data),
{
    reveal(read_stream);
    assert((0x78 * 256 + 1) % 31 == 0);
}

proof fn lemma_trailer(data: Seq<u8>)
    ensures
        crate::bytes::be32(spec_adler32(data)).len() == 4,
        is_adler32(crate::bytes::read_be32(crate::bytes::be32(spec_adler32(data)), 0), data),
{
    let none = Seq::<u8>::empty();
    let sum = crate::bytes::be32(spec_adler32(data));
    crate::bytes::law_be32_reads_back(spec_adler32(data), none, none);
    assert(none + sum + none =~= sum);
    law_the_stream_checksum_is_two_sums(data);
}

/// A zlib stream reads back as the data it was made from, whatever its length.
pub proof fn law_zlib_reads_back(data: Seq<u8>)
    ensures
        read_stream(stream(data)) == Some(data),
{
    let sum = crate::bytes::be32(spec_adler32(data));
    assert(stream(data).skip(2) =~= blocks(data) + sum);
    lemma_blocks_read_back(data, sum);
    lemma_trailer(data);
    lemma_stream_reads(stream(data), data, sum);
}

/// A chunk: length, type, data, and the checksum over type and data.
pub open spec fn chunk(kind: Seq<u8>, data: Seq<u8>) -> Seq<u8> {
    crate::bytes::be32((data.len() % 0x1_0000_0000) as u32) + kind + data + crate::bytes::be32(
        spec_crc32(kind + data),
    )
}

/// Appends a chunk: length, type, data, and the checksum over type and data.
pub fn write_chunk(out: &mut Vec<u8>, kind: &[u8; 4], data: &[u8])
    ensures
        final(out)@ == old(out)@ + chunk(kind@, data@),
{
    append_be32(out, (data.len() as u64 % 0x1_0000_0000) as u32);
    let mut crc_input: Vec<u8> = Vec::new();
    append(&mut crc_input, kind);
    append(&mut crc_input, data);
    append(out, kind);
    append(out, data);
    append_be32(out, crc32(&crc_input));
    proof {
        assert(crc_input@ =~= kind@ + data@);
        assert(final(out)@ =~= old(out)@ + chunk(kind@, data@));
    }
}

/// The chunk that `s` starts with: its type, its data and what stands behind it, if its length and its
/// checksum are right.
#[verifier::opaque]
pub open spec fn read_chunk(s: Seq<u8>) -> Option<(Seq<u8>, Seq<u8>, Seq<u8>)> {
    let len = crate::bytes::read_be32(s, 0) as int;
    if s.len() < 12 || s.len() < 12 + len {
        None
    } else {
        let kind = s.subrange(4, 8);
        let data = s.subrange(8, 8 + len);
        if !is_crc32(crate::bytes::read_be32(s, 8 + len) as u32, kind + data) {
            None
        } else {
            Some((kind, data, s.skip(12 + len)))
        }
    }
}

/// A chunk reads back as its type and its data, with a checksum that holds.
pub proof fn law_chunks_read_back(kind: Seq<u8>, data: Seq<u8>, rest: Seq<u8>)
    requires
        kind.len() == 4,
        data.len() < 0x1_0000_0000,
    ensures
        read_chunk(chunk(kind, data) + rest) == Some((kind, data, rest)),
{
    reveal(read_chunk);
    law_the_chunk_checksum_is_a_remainder(kind + data);
    let s = chunk(kind, data) + rest;
    let len = crate::bytes::be32(data.len() as u32);
    let crc = crate::bytes::be32(spec_crc32(kind + data));
    let none = Seq::<u8>::empty();
    crate::bytes::law_be32_reads_back(data.len() as u32, none, kind + data + crc + rest);
    crate::bytes::law_be32_reads_back(spec_crc32(kind + data), len + kind + data, rest);
    assert(s =~= none + len + (kind + data + crc + rest));
    assert(s =~= (len + kind + data) + crc + rest);
    assert(s.subrange(4, 8) =~= kind);
    assert(s.subrange(8, 8 + data.len() as int) =~= data);
    assert(s.skip(12 + data.len() as int) =~= rest);
}

/// The first eight bytes of every PNG.
pub open spec fn signature() -> Seq<u8> {
    seq![0x89u8, 0x50, 0x4E, 0x47, 0x0D, 0x0A, 0x1A, 0x0A]
}

/// The type of the header chunk.
pub open spec fn ihdr() -> Seq<u8> {
    seq![0x49u8, 0x48, 0x44, 0x52]
}

/// The type of the image data chunk.
pub open spec fn idat() -> Seq<u8> {
    seq![0x49u8, 0x44, 0x41, 0x54]
}

/// The type of the chunk that ends the file.
pub open spec fn iend() -> Seq<u8> {
    seq![0x49u8, 0x45, 0x4E, 0x44]
}

/// The header: the dimensions, a bit depth of 8, truecolour with alpha, deflate, per-line filters, no
/// interlace.
pub open spec fn header(width: u32, height: u32) -> Seq<u8> {
    crate::bytes::be32(width) + crate::bytes::be32(height) + seq![8u8, 6, 0, 0, 0]
}

/// The first `rows` rows of `row` bytes each, every one behind a filter byte that says "no filter".
pub open spec fn scanlines(row: int, rows: int, pixels: Seq<u8>) -> Seq<u8>
    decreases rows,
{
    if rows <= 0 {
        Seq::empty()
    } else {
        scanlines(row, rows - 1, pixels) + seq![0u8] + pixels.subrange((rows - 1) * row, rows * row)
    }
}

/// The image file.
pub open spec fn png(width: u32, height: u32, pixels: Seq<u8>) -> Seq<u8> {
    signature() + chunk(ihdr(), header(width, height)) + chunk(
        idat(),
        stream(scanlines(width * 4, height as int, pixels)),
    ) + chunk(iend(), Seq::empty())
}

/// Encodes an RGBA8 image as PNG bytes.
pub fn encode_png_rgba(width: u32, height: u32, pixels: &[u8]) -> (out: Vec<u8>)
    requires
        width * 4 * height <= pixels@.len(),
    ensures
        out@ == png(width, height, pixels@),
{
    let raw = filtered_rows(width, height, pixels);
    let mut out: Vec<u8> = Vec::new();
    let magic: [u8; 8] = [0x89, 0x50, 0x4E, 0x47, 0x0D, 0x0A, 0x1A, 0x0A];
    append(&mut out, &magic);
    let mut head: Vec<u8> = Vec::new();
    append_be32(&mut head, width);
    append_be32(&mut head, height);
    head.push(8);  // bit depth
    head.push(6);  // colour type: truecolour with alpha
    head.push(0);  // compression method: deflate
    head.push(0);  // filter method: adaptive, as declared by each scanline
    head.push(0);  // interlace: none
    let ihdr_kind: [u8; 4] = [0x49, 0x48, 0x44, 0x52];
    let idat_kind: [u8; 4] = [0x49, 0x44, 0x41, 0x54];
    let iend_kind: [u8; 4] = [0x49, 0x45, 0x4E, 0x44];
    let nothing: [u8; 0] = [];
    write_chunk(&mut out, &ihdr_kind, &head);
    write_chunk(&mut out, &idat_kind, &zlib_stored(&raw));
    write_chunk(&mut out, &iend_kind, &nothing);
    proof {
        assert(magic@ =~= signature());
        assert(head@ =~= header(width, height));
        assert(ihdr_kind@ =~= ihdr());
        assert(idat_kind@ =~= idat());
        assert(iend_kind@ =~= iend());
        assert(nothing@ =~= Seq::<u8>::empty());
        assert(out@ =~= png(width, height, pixels@));
    }
    out
}

/// Puts a "no filter" byte in front of every row.
fn filtered_rows(width: u32, height: u32, pixels: &[u8]) -> (raw: Vec<u8>)
    requires
        width * 4 * height <= pixels@.len(),
    ensures
        raw@ == scanlines(width * 4, height as int, pixels@),
{
    let mut raw: Vec<u8> = Vec::new();
    let mut row: u32 = 0;
    let mut start: usize = 0;
    while row < height
        invariant
            row <= height,
            start == row * (width * 4),
            width * 4 * height <= pixels@.len(),
            raw@ == scanlines(width * 4, row as int, pixels@),
        decreases height - row,
    {
        assert((row + 1) * (width * 4) <= width * 4 * height) by (nonlinear_arith)
            requires
                row < height,
        ;
        assert((row + 1) * (width * 4) == row * (width * 4) + width * 4) by (nonlinear_arith);
        assert(0 <= row * (width * 4)) by (nonlinear_arith);
        assert(start + width * 4 <= pixels.len());
        let row_bytes: usize = width as usize * 4;
        raw.push(0);
        append(&mut raw, vstd::slice::slice_subrange(pixels, start, start + row_bytes));
        start = start + row_bytes;
        row += 1;
    }
    raw
}

/// The pixels in `rows` unfiltered rows of `row` bytes each, if `raw` is made of exactly these.
pub open spec fn read_scanlines(row: int, rows: int, raw: Seq<u8>) -> Option<Seq<u8>>
    decreases rows,
{
    if rows <= 0 {
        if raw.len() == 0 {
            Some(Seq::empty())
        } else {
            None
        }
    } else {
        let start = raw.len() - row - 1;
        if start < 0 || raw[start] != 0 {
            None
        } else {
            match read_scanlines(row, rows - 1, raw.take(start)) {
                None => None,
                Some(pixels) => Some(pixels + raw.skip(start + 1)),
            }
        }
    }
}

proof fn lemma_row_ends(row: int, rows: int)
    by (nonlinear_arith)
    requires
        0 <= row,
        0 < rows,
    ensures
        row * (rows - 1) == row * rows - row,
        (rows - 1) * row == row * rows - row,
        rows * row == row * rows,
        0 <= row * (rows - 1),
{
}

proof fn lemma_scanlines_read_back(row: int, rows: int, pixels: Seq<u8>)
    requires
        0 <= row,
        0 <= rows,
        row * rows <= pixels.len(),
    ensures
        read_scanlines(row, rows, scanlines(row, rows, pixels)) == Some(pixels.take(row * rows)),
    decreases rows,
{
    if rows > 0 {
        lemma_row_ends(row, rows);
        let raw = scanlines(row, rows, pixels);
        let before = scanlines(row, rows - 1, pixels);
        let line = pixels.subrange((rows - 1) * row, rows * row);
        lemma_scanlines_read_back(row, rows - 1, pixels);
        assert(raw.take(raw.len() - row - 1) =~= before);
        assert(raw.skip(raw.len() - row) =~= line);
        assert(raw[raw.len() - row - 1] == 0);
        assert(pixels.take(row * (rows - 1)) + line =~= pixels.take(row * rows));
    } else {
        assert(row * rows == 0) by (nonlinear_arith)
            requires
                rows == 0,
        ;
        assert(pixels.take(0) =~= Seq::<u8>::empty());
    }
}

/// The image in a file: its width, its height and its pixels, if the file is a header of the kind
/// written here, one chunk of image data and an end, each with a checksum that holds, and nothing else.
pub open spec fn read_png(file: Seq<u8>) -> Option<(nat, nat, Seq<u8>)> {
    if !seq![137u8, 80, 78, 71, 13, 10, 26, 10].is_prefix_of(file) {
        None
    } else {
        match read_chunk(file.skip(8)) {
            None => None,
            Some((kind, head, rest)) => if kind != seq![73u8, 72, 68, 82] || head.len() != 13 || head.skip(8)
                != seq![8u8, 6, 0, 0, 0] {
                None
            } else {
                let width = crate::bytes::read_be32(head, 0);
                let height = crate::bytes::read_be32(head, 4);
                match read_chunk(rest) {
                    None => None,
                    Some((kind, data, rest)) => if kind != seq![73u8, 68, 65, 84] || read_chunk(rest) != Some(
                        (seq![73u8, 69, 78, 68], Seq::<u8>::empty(), Seq::<u8>::empty()),
                    ) {
                        None
                    } else {
                        match read_stream(data) {
                            None => None,
                            Some(raw) => match read_scanlines(width as int * 4, height as int, raw) {
                                None => None,
                                Some(pixels) => Some((width, height, pixels)),
                            },
                        }
                    },
                }
            },
        }
    }
}

/// An image reads back from its file: the same dimensions and the same pixels, with every checksum
/// right and nothing behind the end.
///
/// The length of the image data has to fit the 32 bits that the format gives it.
pub proof fn law_png_reads_back(width: u32, height: u32, pixels: Seq<u8>)
    requires
        pixels.len() == width * 4 * height,
        stream(scanlines(width * 4, height as int, pixels)).len() < 0x1_0000_0000,
    ensures
        read_png(png(width, height, pixels)) == Some((width as nat, height as nat, pixels)),
{
    let head = header(width, height);
    let raw = scanlines(width * 4, height as int, pixels);
    let data = stream(raw);
    let none = Seq::<u8>::empty();
    let end = chunk(iend(), none);
    lemma_file_splits(width, height, pixels);
    lemma_header_reads_back(width, height);
    law_chunks_read_back(ihdr(), head, chunk(idat(), data) + end);
    law_chunks_read_back(idat(), data, end);
    law_chunks_read_back(iend(), none, none);
    assert(end + none =~= end);
    law_zlib_reads_back(raw);
    lemma_scanlines_read_back(width * 4, height as int, pixels);
    assert(pixels.take(pixels.len() as int) =~= pixels);
    lemma_parts_make_a_file(
        png(width, height, pixels),
        head,
        chunk(idat(), data) + end,
        data,
        end,
        raw,
    );
}

proof fn lemma_parts_make_a_file(
    file: Seq<u8>,
    head: Seq<u8>,
    behind_head: Seq<u8>,
    data: Seq<u8>,
    behind_data: Seq<u8>,
    raw: Seq<u8>,
)
    requires
        signature().is_prefix_of(file),
        read_chunk(file.skip(8)) == Some((ihdr(), head, behind_head)),
        head.len() == 13,
        head.skip(8) == seq![8u8, 6, 0, 0, 0],
        read_chunk(behind_head) == Some((idat(), data, behind_data)),
        read_chunk(behind_data) == Some((iend(), Seq::<u8>::empty(), Seq::<u8>::empty())),
        read_stream(data) == Some(raw),
    ensures
        ({
            let width = crate::bytes::read_be32(head, 0);
            let height = crate::bytes::read_be32(head, 4);
            read_png(file) == (match read_scanlines(width as int * 4, height as int, raw) {
                None => None,
                Some(pixels) => Some((width, height, pixels)),
            })
        }),
{
}

proof fn lemma_file_splits(width: u32, height: u32, pixels: Seq<u8>)
    ensures
        signature().is_prefix_of(png(width, height, pixels)),
        png(width, height, pixels).skip(8) == chunk(ihdr(), header(width, height)) + (chunk(
            idat(),
            stream(scanlines(width * 4, height as int, pixels)),
        ) + chunk(iend(), Seq::empty())),
{
    let first = chunk(ihdr(), header(width, height));
    let second = chunk(idat(), stream(scanlines(width * 4, height as int, pixels)));
    let third = chunk(iend(), Seq::empty());
    let file = signature() + first + second + third;
    assert(file.skip(8) =~= first + (second + third));
}

proof fn lemma_header_reads_back(width: u32, height: u32)
    ensures
        header(width, height).len() == 13,
        header(width, height).skip(8) == seq![8u8, 6, 0, 0, 0],
        crate::bytes::read_be32(header(width, height), 0) == width,
        crate::bytes::read_be32(header(width, height), 4) == height,
{
    let head = header(width, height);
    let fixed = seq![8u8, 6, 0, 0, 0];
    let none = Seq::<u8>::empty();
    crate::bytes::law_be32_reads_back(width, none, crate::bytes::be32(height) + fixed);
    crate::bytes::law_be32_reads_back(height, crate::bytes::be32(width), fixed);
    assert(head.skip(8) =~= fixed);
    assert(head =~= none + crate::bytes::be32(width) + (crate::bytes::be32(height) + fixed));
}

/// The complaint about a pixel buffer of the wrong size.
pub open spec fn size_message(width: u32, height: u32, len: nat) -> Seq<char> {
    "pixel buffer is "@ + crate::text::decimal(len) + " bytes but "@ + crate::text::decimal(
        width as nat,
    ) + "x"@ + crate::text::decimal(height as nat) + " RGBA needs "@ + crate::text::decimal(
        (width * height * 4) as nat,
    )
}

/// The bytes of the file that an RGBA8 image is written to.
///
/// Returns a message when the pixel buffer does not match `width * height * 4` bytes.
pub fn png_file_bytes(width: u32, height: u32, pixels: &[u8]) -> (r: Result<Vec<u8>, String>)
    requires
        width * height * 4 <= usize::MAX,
    ensures
        match r {
            Ok(bytes) => pixels@.len() == width * height * 4 && bytes@ == png(width, height, pixels@),
            Err(e) => pixels@.len() != width * height * 4 && e@ == size_message(
                width,
                height,
                pixels@.len(),
            ),
        },
{
    assert(width * height <= width * height * 4 <= usize::MAX) by (nonlinear_arith)
        requires
            width * height * 4 <= usize::MAX,
    ;
    assert(width * height * 4 == width * 4 * height) by (nonlinear_arith);
    assert(width as u64 * height as u64 <= u64::MAX) by (nonlinear_arith);
    let area: u64 = width as u64 * height as u64;
    let expected: u64 = area * 4;
    if pixels.len() as u64 != expected {
        let mut m = "pixel buffer is ".to_owned();
        push_decimal(&mut m, pixels.len() as u64);
        m.append(" bytes but ");
        push_decimal(&mut m, width as u64);
        m.append("x");
        push_decimal(&mut m, height as u64);
        m.append(" RGBA needs ");
        push_decimal(&mut m, expected);
        return Err(m);
    }
    Ok(encode_png_rgba(width, height, pixels))
}

/// Stored blocks cost five bytes each, and there are as few of them as there can be: one for every 65535
/// bytes that are begun, and one where there are none.
pub proof fn law_blocks_cost_five_bytes_each(data: Seq<u8>)
    ensures
        data.len() == 0 ==> blocks(data).len() == 5,
        data.len() > 0 ==> blocks(data).len() == data.len() + 5 * ((data.len() as int + 65_534) / 65_535),
    decreases data.len(),
{
    let head = if data.len() > 65_535 {
        data.take(65_535)
    } else {
        data
    };
    crate::bytes::law_le16_puts_the_lightest_byte_first(head.len() as u16);
    crate::bytes::law_le16_puts_the_lightest_byte_first((65_535 - head.len()) as u16);
    if data.len() > 65_535 {
        law_blocks_cost_five_bytes_each(data.skip(65_535));
    }
}

/// A block says whether it is the last, how long it is, and the complement of that, each length with its
/// lightest byte first; then its bytes follow.
pub proof fn law_a_block_says_how_long_it_is(last: bool, data: Seq<u8>)
    requires
        data.len() <= 65_535,
    ensures
        block(last, data)[0] == (if last {
            1u8
        } else {
            0u8
        }),
        block(last, data)[1] + 256 * block(last, data)[2] == data.len(),
        block(last, data)[3] + 256 * block(last, data)[4] == 65_535 - data.len(),
        block(last, data).skip(5) == data,
{
    let (len, complement) = (data.len() as u16, (65_535 - data.len()) as u16);
    crate::bytes::law_le16_puts_the_lightest_byte_first(len);
    crate::bytes::law_le16_puts_the_lightest_byte_first(complement);
    let all = block(last, data);
    assert(all[1] == crate::bytes::le16(len)[0] && all[2] == crate::bytes::le16(len)[1]);
    assert(all[3] == crate::bytes::le16(complement)[0] && all[4] == crate::bytes::le16(complement)[1]);
    assert(all.skip(5) =~= data);
}

/// The complaint about a buffer names what was given first, then the size of the picture, and last what
/// it takes: four bytes to a pixel.
pub proof fn law_the_complaint_names_the_sizes(width: u32, height: u32, len: nat)
    ensures
        ("pixel buffer is "@ + crate::text::decimal(len) + " bytes but "@).is_prefix_of(
            size_message(width, height, len),
        ),
        size_message(width, height, len).skip(
            ("pixel buffer is "@ + crate::text::decimal(len) + " bytes but "@).len() as int,
        ) == crate::text::decimal(width as nat) + "x"@ + crate::text::decimal(height as nat)
            + " RGBA needs "@ + crate::text::decimal((4 * (width * height)) as nat),
{
    let head = "pixel buffer is "@ + crate::text::decimal(len) + " bytes but "@;
    let all = size_message(width, height, len);
    assert(head =~= all.subrange(0, head.len() as int));
    assert(width * height * 4 == 4 * (width * height));
    assert(all.skip(head.len() as int) =~= crate::text::decimal(width as nat) + "x"@
        + crate::text::decimal(height as nat) + " RGBA needs "@ + crate::text::decimal(
        (4 * (width * height)) as nat,
    ));
}

/// A stream starts with the two bytes that announce deflate with a window of 32 KiB and the fastest level;
/// the blocks follow, and four bytes of checksum.
pub proof fn law_a_stream_starts_with_its_header(data: Seq<u8>)
    ensures
        stream(data).len() == blocks(data).len() + 6,
        stream(data)[0] == 0x78,
        stream(data)[1] == 0x01,
        stream(data).subrange(2, stream(data).len() - 4) == blocks(data),
{
    lemma_trailer(data);
    let s = stream(data);
    assert(s.subrange(2, s.len() - 4) =~= blocks(data));
}

/// A chunk starts with the length of its data, modulo 2^32, its heaviest byte first; its type, its data and
/// four bytes of checksum follow.
pub proof fn law_a_chunk_starts_with_its_length(kind: Seq<u8>, data: Seq<u8>)
    requires
        kind.len() == 4,
    ensures
        chunk(kind, data).len() == data.len() + 12,
        chunk(kind, data)[0] * 16_777_216 + chunk(kind, data)[1] * 65_536 + chunk(kind, data)[2] * 256
            + chunk(kind, data)[3] == data.len() % 0x1_0000_0000,
        chunk(kind, data).subrange(4, 8) == kind,
        chunk(kind, data).subrange(8, 8 + data.len() as int) == data,
{
    let len = (data.len() % 0x1_0000_0000) as u32;
    let sum = spec_crc32(kind + data);
    crate::bytes::law_be32_puts_the_heaviest_byte_first(len);
    crate::bytes::law_be32_puts_the_heaviest_byte_first(sum);
    let c = chunk(kind, data);
    let b = crate::bytes::be32(len);
    assert(c[0] == b[0] && c[1] == b[1] && c[2] == b[2] && c[3] == b[3]);
    assert(c.subrange(4, 8) =~= kind);
    assert(c.subrange(8, 8 + data.len() as int) =~= data);
}

} // verus!
