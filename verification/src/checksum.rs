//! The CRC-32 of IEEE 802.3, which the ISO-HDLC algorithm computes too: a register of all
//! ones takes in each byte, least significant bit first, and is complemented at the end.
use vstd::prelude::*;

verus! {

/// Reflected polynomial of the CRC-32.
pub const CRC_POLY: u32 = 0xEDB8_8320;

/// One step of the CRC register.
pub open spec fn crc_bit(c: u32) -> u32 {
    if c & 1 == 1 {
        (c >> 1u32) ^ CRC_POLY
    } else {
        c >> 1u32
    }
}

/// So many steps of the CRC register.
pub open spec fn crc_bits(c: u32, n: nat) -> u32
    decreases n,
{
    if n == 0 {
        c
    } else {
        crc_bit(crc_bits(c, (n - 1) as nat))
    }
}

/// The CRC register after some bytes.
pub open spec fn crc_register(bytes: Seq<u8>) -> u32
    decreases bytes.len(),
{
    if bytes.len() == 0 {
        0xFFFF_FFFF
    } else {
        crc_bits(crc_register(bytes.drop_last()) ^ bytes.last() as u32, 8)
    }
}

/// The CRC-32 of some bytes.
pub open spec fn crc32(bytes: Seq<u8>) -> u32 {
    !crc_register(bytes)
}

/// Different registers stay different.
proof fn lemma_steps_are_reversible(a: u32, b: u32, n: nat)
    requires
        a != b,
    ensures
        crc_bits(a, n) != crc_bits(b, n),
    decreases n,
{
    if n > 0 {
        lemma_steps_are_reversible(a, b, (n - 1) as nat);
        let x = crc_bits(a, (n - 1) as nat);
        let y = crc_bits(b, (n - 1) as nat);
        assert(crc_bit(x) != crc_bit(y)) by (bit_vector)
            requires
                x != y,
        ;
    }
}

/// A register depends on each byte that it takes in.
proof fn lemma_register_differs(a: Seq<u8>, i: int, v: u8)
    requires
        0 <= i < a.len(),
        a[i] != v,
    ensures
        crc_register(a.update(i, v)) != crc_register(a),
    decreases a.len(),
{
    let b = a.update(i, v);
    let x = crc_register(a.drop_last());
    let y = crc_register(b.drop_last());
    let p = a.last();
    let q = b.last();
    if i == a.len() - 1 {
        assert(b.drop_last() =~= a.drop_last());
        assert(x ^ (p as u32) != x ^ (q as u32)) by (bit_vector)
            requires
                p != q,
        ;
    } else {
        assert(b.drop_last() =~= a.drop_last().update(i, v));
        lemma_register_differs(a.drop_last(), i, v);
        assert(x ^ (p as u32) != y ^ (p as u32)) by (bit_vector)
            requires
                x != y,
        ;
    }
    lemma_steps_are_reversible(x ^ p as u32, y ^ q as u32, 8);
}

/// Bytes that differ in a single one have different checksums.
pub proof fn one_byte_changes_the_checksum(bytes: Seq<u8>, i: int, v: u8)
    requires
        0 <= i < bytes.len(),
        bytes[i] != v,
    ensures
        crc32(bytes.update(i, v)) != crc32(bytes),
{
    lemma_register_differs(bytes, i, v);
    let x = crc_register(bytes);
    let y = crc_register(bytes.update(i, v));
    assert(!x != !y) by (bit_vector)
        requires
            x != y,
    ;
}

/// The checksum of nothing is zero, and each further byte takes eight steps of the register:
/// a shift to the right, with the polynomial 0xEDB88320 where a one falls out.
pub proof fn checksum_takes_eight_steps_a_byte(bytes: Seq<u8>, b: u8, c: u32)
    ensures
        crc32(Seq::empty()) == 0,
        crc32(bytes.push(b)) == !crc_bits(!crc32(bytes) ^ b as u32, 8),
        crc_bits(c, 0) == c,
        c % 2 == 0 ==> crc_bits(c, 1) == c / 2,
        c % 2 == 1 ==> crc_bits(c, 1) == (c / 2) ^ 0xEDB8_8320,
{
    let r = crc_register(bytes);
    assert(bytes.push(b).drop_last() =~= bytes);
    assert(!0xFFFF_FFFFu32 == 0 && !!r == r && c >> 1u32 == c / 2 && (c & 1 == 1 <==> c % 2 == 1))
        by (bit_vector);
    reveal_with_fuel(crc_bits, 2);
}

} // verus!
