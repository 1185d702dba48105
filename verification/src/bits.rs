//! Bytes as streams of bits, most significant first, one bit to a byte.
use vstd::prelude::*;

verus! {

/// Bit `i` of a byte, counted from the most significant.
pub open spec fn bit_of(b: u8, i: int) -> u8 {
    (b >> ((7 - i) as u8)) & 1u8
}

/// The bits of some bytes.
pub open spec fn bits_of(bytes: Seq<u8>) -> Seq<u8> {
    Seq::new((bytes.len() * 8) as nat, |i: int| bit_of(bytes[i / 8], i % 8))
}

/// The first `n` of eight bits from `at` on, put back in their places.
pub open spec fn packed(bits: Seq<u8>, at: int, n: nat) -> u8
    decreases n,
{
    if n == 0 {
        0
    } else {
        packed(bits, at, (n - 1) as nat) | (bits[at + n - 1] << ((8 - n) as u8))
    }
}

/// The whole bytes of a stream of bits.
pub open spec fn bytes_of(bits: Seq<u8>) -> Seq<u8> {
    Seq::new(bits.len() / 8, |i: int| packed(bits, 8 * i, 8))
}

/// The bits of some bytes, most significant first.
pub fn unpack(bytes: &[u8]) -> (bits: Vec<u8>)
    requires
        bytes@.len() * 8 <= usize::MAX,
    ensures
        bits@ == bits_of(bytes@),
{
    let mut bits: Vec<u8> = Vec::new();
    let mut i: usize = 0;
    while i < bytes.len()
        invariant
            i <= bytes@.len(),
            bits@ == bits_of(bytes@).take(8 * i),
        decreases bytes.len() - i,
    {
        push_bits(&mut bits, bytes[i]);
        assert(bits@ =~= bits_of(bytes@).take(8 * (i + 1)));
        i = i + 1;
    }
    assert(bits@ =~= bits_of(bytes@));
    bits
}

/// Append the bits of one byte.
fn push_bits(bits: &mut Vec<u8>, b: u8)
    ensures
        final(bits)@ == old(bits)@ + Seq::new(8, |j: int| bit_of(b, j)),
{
    let mut j: u8 = 0;
    while j < 8
        invariant
            j <= 8,
            bits@ == old(bits)@ + Seq::new(j as nat, |k: int| bit_of(b, k)),
        decreases 8 - j,
    {
        let bit: u8 = (b >> (7 - j)) & 1;
        bits.push(bit);
        assert(bits@ =~= old(bits)@ + Seq::new((j + 1) as nat, |k: int| bit_of(b, k)));
        j = j + 1;
    }
}

/// Put eight bits from `at` on together.
pub fn pack_one(bits: &[u8], at: usize) -> (b: u8)
    requires
        at + 8 <= bits@.len(),
    ensures
        b == packed(bits@, at as int, 8),
{
    let len: usize = bits.len();
    let mut b: u8 = 0;
    let mut n: u8 = 0;
    while n < 8
        invariant
            n <= 8,
            at + 8 <= len == bits@.len(),
            b == packed(bits@, at as int, n as nat),
        decreases 8 - n,
    {
        b = b | (bits[at + n as usize] << (7 - n));
        n = n + 1;
    }
    b
}

/// The whole bytes of a stream of bits.
pub fn pack(bits: &[u8]) -> (bytes: Vec<u8>)
    ensures
        bytes@ == bytes_of(bits@),
{
    let len: usize = bits.len();
    let n: usize = len / 8;
    let mut bytes: Vec<u8> = Vec::new();
    let mut i: usize = 0;
    while i < n
        invariant
            i <= n == bits@.len() / 8,
            8 * n <= len == bits@.len(),
            bytes@ == bytes_of(bits@).take(i as int),
        decreases n - i,
    {
        bytes.push(pack_one(bits, 8 * i));
        assert(bytes@ =~= bytes_of(bits@).take(i + 1));
        i = i + 1;
    }
    assert(bytes@ =~= bytes_of(bits@));
    bytes
}

/// Taking a byte apart and putting it together again gives it back.
pub proof fn lemma_packed_bits(bits: Seq<u8>, at: int, b: u8)
    requires
        forall|j: int| 0 <= j < 8 ==> #[trigger] bits[at + j] == bit_of(b, j),
    ensures
        packed(bits, at, 8) == b,
{
    reveal_with_fuel(packed, 9);
    assert(bits[at + 0] == bit_of(b, 0));
    assert(bits[at + 1] == bit_of(b, 1));
    assert(bits[at + 2] == bit_of(b, 2));
    assert(bits[at + 3] == bit_of(b, 3));
    assert(bits[at + 4] == bit_of(b, 4));
    assert(bits[at + 5] == bit_of(b, 5));
    assert(bits[at + 6] == bit_of(b, 6));
    assert(bits[at + 7] == bit_of(b, 7));
    assert(0u8 | (((b >> 7u8) & 1u8) << 7u8) | (((b >> 6u8) & 1u8) << 6u8) | (((b >> 5u8) & 1u8)
        << 5u8) | (((b >> 4u8) & 1u8) << 4u8) | (((b >> 3u8) & 1u8) << 3u8) | (((b >> 2u8) & 1u8)
        << 2u8) | (((b >> 1u8) & 1u8) << 1u8) | (((b >> 0u8) & 1u8) << 0u8) == b) by (bit_vector);
}

/// The bytes of the bits of some bytes are those bytes.
pub proof fn bits_round_trip(bytes: Seq<u8>)
    ensures
        bytes_of(bits_of(bytes)) == bytes,
{
    let bits = bits_of(bytes);
    assert forall|i: int| 0 <= i < bytes.len() implies #[trigger] packed(bits, 8 * i, 8)
        == bytes[i] by {
        assert forall|j: int| 0 <= j < 8 implies #[trigger] bits[8 * i + j] == bit_of(
            bytes[i],
            j,
        ) by {
            assert((8 * i + j) / 8 == i && (8 * i + j) % 8 == j);
        }
        lemma_packed_bits(bits, 8 * i, bytes[i]);
    }
    assert(bytes_of(bits) =~= bytes);
}

/// Every bit of a stream is zero or one.
pub proof fn bits_are_binary(bytes: Seq<u8>)
    ensures
        forall|i: int| 0 <= i < bits_of(bytes).len() ==> #[trigger] bits_of(bytes)[i] <= 1,
{
    assert forall|i: int| 0 <= i < bits_of(bytes).len() implies #[trigger] bits_of(bytes)[i]
        <= 1 by {
        let x = bytes[i / 8] >> ((7 - i % 8) as u8);
        assert(x & 1u8 <= 1) by (bit_vector);
    }
}

/// A byte is the number that its eight bits stand for, the first of them worth 128 and the
/// last worth one.
pub proof fn first_bit_is_worth_the_most(bytes: Seq<u8>, i: int)
    requires
        0 <= i < bytes.len(),
    ensures
        ({
            let s = bits_of(bytes);
            let at = 8 * i;
            &&& s.len() == 8 * bytes.len()
            &&& bytes[i] == 128 * s[at] + 64 * s[at + 1] + 32 * s[at + 2] + 16 * s[at + 3] + 8
                * s[at + 4] + 4 * s[at + 5] + 2 * s[at + 6] + s[at + 7]
            &&& forall|j: int| at <= j < at + 8 ==> #[trigger] s[j] <= 1
        }),
{
    let s = bits_of(bytes);
    let b = bytes[i];
    bits_are_binary(bytes);
    assert forall|j: int| 0 <= j < 8 implies #[trigger] s[8 * i + j] == bit_of(b, j) by {
        assert((8 * i + j) / 8 == i && (8 * i + j) % 8 == j);
    }
    assert(s[8 * i + 0] == bit_of(b, 0) && s[8 * i + 1] == bit_of(b, 1) && s[8 * i + 2] == bit_of(
        b,
        2,
    ) && s[8 * i + 3] == bit_of(b, 3) && s[8 * i + 4] == bit_of(b, 4) && s[8 * i + 5] == bit_of(
        b,
        5,
    ) && s[8 * i + 6] == bit_of(b, 6) && s[8 * i + 7] == bit_of(b, 7));
    lemma_byte_value(b);
}

proof fn lemma_byte_value(b: u8)
    ensures
        b == 128 * bit_of(b, 0) + 64 * bit_of(b, 1) + 32 * bit_of(b, 2) + 16 * bit_of(b, 3) + 8
            * bit_of(b, 4) + 4 * bit_of(b, 5) + 2 * bit_of(b, 6) + bit_of(b, 7),
{
    assert(b == 128 * ((b >> 7u8) & 1u8) + 64 * ((b >> 6u8) & 1u8) + 32 * ((b >> 5u8) & 1u8) + 16
        * ((b >> 4u8) & 1u8) + 8 * ((b >> 3u8) & 1u8) + 4 * ((b >> 2u8) & 1u8) + 2 * ((b >> 1u8)
        & 1u8) + ((b >> 0u8) & 1u8)) by (bit_vector);
}

/// Putting bits together gives whole bytes only, each the number that its eight bits stand
/// for; what is left over is dropped.
pub proof fn packing_counts_the_first_bit_most(bits: Seq<u8>, i: int)
    requires
        0 <= i < bits.len() / 8,
        forall|j: int| 0 <= j < bits.len() ==> #[trigger] bits[j] <= 1,
    ensures
        bytes_of(bits).len() == bits.len() / 8,
        bytes_of(bits)[i] == 128 * bits[8 * i] + 64 * bits[8 * i + 1] + 32 * bits[8 * i + 2] + 16
            * bits[8 * i + 3] + 8 * bits[8 * i + 4] + 4 * bits[8 * i + 5] + 2 * bits[8 * i + 6]
            + bits[8 * i + 7],
{
    let at = 8 * i;
    let (a, b, c, d) = (bits[at], bits[at + 1], bits[at + 2], bits[at + 3]);
    let (e, f, g, h) = (bits[at + 4], bits[at + 5], bits[at + 6], bits[at + 7]);
    reveal_with_fuel(packed, 9);
    assert((0u8 | (a << 7u8) | (b << 6u8) | (c << 5u8) | (d << 4u8) | (e << 3u8) | (f << 2u8) | (g
        << 1u8) | (h << 0u8)) == 128 * a + 64 * b + 32 * c + 16 * d + 8 * e + 4 * f + 2 * g + h)
        by (bit_vector)
        requires
            a <= 1,
            b <= 1,
            c <= 1,
            d <= 1,
            e <= 1,
            f <= 1,
            g <= 1,
            h <= 1,
    ;
}

} // verus!
