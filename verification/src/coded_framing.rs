//! Framing of a payload across the blocks of an error-correcting code.
//!
//! The stream of information bits, one to a byte, is the payload's length in sixteen
//! bits, the payload, and zeros up to a whole number of blocks. The length lies in the
//! first block, so that a receiver knows the number of blocks once it has that one.
use crate::transport::PhyError;
use vstd::prelude::*;
use vstd::string::*;

verus! {

/// Width of the length header, in bits.
pub const HEADER_BITS: usize = 16;

/// Blocks that a payload occupies.
pub open spec fn blocks_needed(payload_len: int, block_info: int) -> int {
    (HEADER_BITS + payload_len * 8 + block_info - 1) / block_info
}

/// The length header, most significant bit first.
pub open spec fn header(len: u16) -> Seq<u8> {
    Seq::new(HEADER_BITS as nat, |i: int| ((len >> ((15 - i) as u16)) & 1u16) as u8)
}

/// The stream of information bits of a payload.
pub open spec fn framed(payload: Seq<u8>, block_info: int) -> Seq<u8> {
    let body = header(payload.len() as u16) + crate::bits::bits_of(payload);
    let total = blocks_needed(payload.len() as int, block_info) * block_info;
    body + Seq::new((total - body.len()) as nat, |i: int| 0u8)
}

/// The number in the first `n` bits of a header.
pub open spec fn header_value(bits: Seq<u8>, n: nat) -> int
    decreases n,
{
    if n == 0 {
        0
    } else {
        2 * header_value(bits, (n - 1) as nat) + (bits[n - 1] & 1u8)
    }
}

/// The length that a header declares.
pub open spec fn declared_len(bits: Seq<u8>) -> int {
    header_value(bits, HEADER_BITS as nat)
}

/// The payload in a stream of information bits, or the message of the error.
pub open spec fn deframed(bits: Seq<u8>) -> Result<Seq<u8>, Seq<char>> {
    let len = declared_len(bits);
    let need = HEADER_BITS + len * 8;
    if bits.len() < HEADER_BITS {
        Err("coded frame shorter than length header"@)
    } else if bits.len() < need {
        Err(
            "declared payload "@ + crate::text::decimal(len as nat) + " bytes needs "@
                + crate::text::decimal(need as nat) + " bits, have "@ + crate::text::decimal(
                bits.len(),
            ),
        )
    } else {
        Ok(crate::bits::bytes_of(bits.subrange(HEADER_BITS as int, need)))
    }
}

/// Number of blocks that a payload occupies at `block_info` information bits each.
pub fn blocks_for_payload(payload_len: usize, block_info: usize) -> (n: usize)
    requires
        block_info >= 1,
        HEADER_BITS + payload_len * 8 <= usize::MAX,
    ensures
        n == blocks_needed(payload_len as int, block_info as int),
        n >= 1,
{
    proof {
        lemma_some_block(payload_len as int, block_info as int);
    }
    crate::mac::frames_for(HEADER_BITS + payload_len * 8, block_info)
}

/// Expand a payload into its padded stream of information bits. A length that does not
/// fit the header is cut to its low sixteen bits.
pub fn frame_info_bits(payload: &[u8], block_info: usize) -> (bits: Vec<u8>)
    requires
        block_info >= 1,
        HEADER_BITS + payload@.len() * 8 + block_info <= usize::MAX,
    ensures
        bits@ == framed(payload@, block_info as int),
{
    let n_blocks: usize = blocks_for_payload(payload.len(), block_info);
    let len: u16 = #[verifier::truncate] (payload.len() as u16);
    let mut bits: Vec<u8> = Vec::new();
    let mut i: u16 = 0;
    while i < 16
        invariant
            i <= 16,
            bits@ == header(len).take(i as int),
        decreases 16 - i,
    {
        bits.push(((len >> (15 - i)) & 1) as u8);
        assert(bits@ =~= header(len).take(i + 1));
        i = i + 1;
    }
    assert(bits@ =~= header(len));
    let mut body = crate::bits::unpack(payload);
    bits.append(&mut body);
    let ghost start = bits@;
    proof {
        lemma_block_total(payload@.len() as int, block_info as int);
    }
    let total: usize = n_blocks * block_info;
    while bits.len() < total
        invariant
            start.len() <= bits@.len() <= total,
            bits@ == start + Seq::new((bits@.len() - start.len()) as nat, |i: int| 0u8),
        decreases total - bits.len(),
    {
        bits.push(0);
        assert(bits@ =~= start + Seq::new((bits@.len() - start.len()) as nat, |i: int| 0u8));
    }
    assert(bits@ =~= framed(payload@, block_info as int));
    bits
}

/// Every payload occupies a block.
proof fn lemma_some_block(payload_len: int, block_info: int)
    requires
        payload_len >= 0,
        block_info >= 1,
    ensures
        blocks_needed(payload_len, block_info) >= 1,
{
    let t = HEADER_BITS + payload_len * 8 + block_info - 1;
    vstd::arithmetic::div_mod::lemma_div_is_ordered(block_info, t, block_info);
    vstd::arithmetic::div_mod::lemma_div_by_self(block_info);
}

/// Whole blocks hold the header and the payload, and less than one block of padding.
pub proof fn lemma_block_total(payload_len: int, block_info: int)
    requires
        payload_len >= 0,
        block_info >= 1,
    ensures
        HEADER_BITS + payload_len * 8 <= blocks_needed(payload_len, block_info) * block_info
            < HEADER_BITS + payload_len * 8 + block_info,
{
    let t = HEADER_BITS + payload_len * 8;
    let q = (t + block_info - 1) / block_info;
    vstd::arithmetic::div_mod::lemma_fundamental_div_mod(t + block_info - 1, block_info);
    vstd::arithmetic::div_mod::lemma_mod_bound(t + block_info - 1, block_info);
    assert(q * block_info == block_info * q) by (nonlinear_arith);
}

/// Read the number of blocks from the first decoded block.
pub fn blocks_from_first_block(first_block: &[u8], block_info: usize) -> (n: usize)
    requires
        first_block@.len() >= HEADER_BITS,
        block_info >= 1,
    ensures
        n == blocks_needed(declared_len(first_block@), block_info as int),
{
    let len: usize = read_header_len(first_block);
    blocks_for_payload(len, block_info)
}

/// Recover the payload from the whole stream of information bits.
pub fn deframe_info_bits(info_bits: &[u8]) -> (r: Result<Vec<u8>, PhyError>)
    ensures
        match (r, deframed(info_bits@)) {
            (Ok(p), Ok(payload)) => p@ == payload,
            (Err(PhyError::FrameDetect(m)), Err(text)) => m@ == text,
            _ => false,
        },
{
    if info_bits.len() < HEADER_BITS {
        return Err(
            PhyError::FrameDetect("coded frame shorter than length header".to_owned()),
        );
    }
    let len: usize = read_header_len(info_bits);
    let need: usize = HEADER_BITS + len * 8;
    if info_bits.len() < need {
        let mut m = "declared payload ".to_owned();
        m.append(crate::text::decimal_text(len as u64).as_str());
        m.append(" bytes needs ");
        m.append(crate::text::decimal_text(need as u64).as_str());
        m.append(" bits, have ");
        m.append(crate::text::decimal_text(info_bits.len() as u64).as_str());
        return Err(PhyError::FrameDetect(m));
    }
    Ok(crate::bits::pack(vstd::slice::slice_subrange(info_bits, HEADER_BITS, need)))
}

/// Read the length that a header declares.
fn read_header_len(bits: &[u8]) -> (len: usize)
    requires
        bits@.len() >= HEADER_BITS,
    ensures
        len == declared_len(bits@),
        len <= u16::MAX,
{
    let mut len: usize = 0;
    let mut i: usize = 0;
    let mut bound: usize = 1;
    proof {
        vstd::arithmetic::power2::lemma2_to64();
    }
    while i < HEADER_BITS
        invariant
            bits@.len() >= HEADER_BITS,
            i <= HEADER_BITS,
            len == header_value(bits@, i as nat),
            len < bound,
            bound == vstd::arithmetic::power2::pow2(i as nat),
            bound <= 65536,
        decreases HEADER_BITS - i,
    {
        let b: u8 = bits[i];
        assert(b & 1u8 <= 1) by (bit_vector);
        proof {
            vstd::arithmetic::power2::lemma_pow2_unfold((i + 1) as nat);
            vstd::arithmetic::power2::lemma2_to64();
            if i + 1 < 16 {
                vstd::arithmetic::power2::lemma_pow2_strictly_increases((i + 1) as nat, 16);
            }
        }
        len = len * 2 + (b & 1) as usize;
        bound = bound * 2;
        i = i + 1;
    }
    len
}

/// A header declares the length that it was made from.
proof fn lemma_header_reads_back(bits: Seq<u8>, len: u16, n: nat)
    requires
        n <= 16,
        bits.len() >= 16,
        bits.take(16) == header(len),
    ensures
        header_value(bits, n) == if n == 0 {
            0
        } else {
            len >> ((16 - n) as u16)
        },
    decreases n,
{
    if n > 0 {
        lemma_header_reads_back(bits, len, (n - 1) as nat);
        let k = (16 - n) as u16;
        assert(bits[n - 1] == bits.take(16)[n - 1]);
        let x = (len >> k) & 1u16;
        assert(x <= 1 && ((x as u8) & 1u8) as u16 == x) by (bit_vector)
            requires
                x == (len >> k) & 1u16,
        ;
        if n == 1 {
            assert(len >> 15u16 == (len >> 15u16) & 1u16) by (bit_vector);
        } else {
            let k1 = (k + 1) as u16;
            assert((len >> k) == 2 * (len >> k1) + ((len >> k) & 1u16)) by (bit_vector)
                requires
                    k1 == k + 1,
                    k < 15,
            ;
        }
    }
}

/// Shifting by nothing changes nothing.
proof fn lemma_no_shift(len: u16)
    ensures
        len >> 0u16 == len,
{
    assert(len >> 0u16 == len) by (bit_vector);
}

/// A payload survives framing: its header declares its length and the number of its
/// blocks, the stream is whole blocks, and deframing gives it back.
pub proof fn framed_payload_comes_back(payload: Seq<u8>, block_info: int)
    requires
        payload.len() <= u16::MAX,
        block_info >= 1,
    ensures
        framed(payload, block_info).len() == blocks_needed(payload.len() as int, block_info)
            * block_info,
        declared_len(framed(payload, block_info)) == payload.len(),
        deframed(framed(payload, block_info)) == Ok::<Seq<u8>, Seq<char>>(payload),
{
    let bits = framed(payload, block_info);
    let len = payload.len() as u16;
    lemma_block_total(payload.len() as int, block_info);
    assert(bits.take(16) =~= header(len));
    lemma_header_reads_back(bits, len, 16);
    lemma_no_shift(len);
    assert(bits.subrange(16, (16 + payload.len() * 8) as int) =~= crate::bits::bits_of(payload));
    crate::bits::bits_round_trip(payload);
}

/// Whatever bits follow the stream of a payload change nothing of what is read from it,
/// neither the length nor the payload.
pub proof fn bits_behind_the_stream_change_nothing(
    payload: Seq<u8>,
    block_info: int,
    rest: Seq<u8>,
)
    requires
        payload.len() <= u16::MAX,
        block_info >= 1,
    ensures
        declared_len(framed(payload, block_info) + rest) == payload.len(),
        deframed(framed(payload, block_info) + rest) == Ok::<Seq<u8>, Seq<char>>(payload),
{
    let bits = framed(payload, block_info);
    let all = bits + rest;
    let len = payload.len() as u16;
    let need = (16 + payload.len() * 8) as int;
    lemma_block_total(payload.len() as int, block_info);
    framed_payload_comes_back(payload, block_info);
    assert(all.take(16) =~= header(len));
    lemma_header_reads_back(all, len, 16);
    lemma_no_shift(len);
    assert(all.subrange(16, need) =~= crate::bits::bits_of(payload));
    crate::bits::bits_round_trip(payload);
}

/// A first block of at least the header's size announces the number of blocks of the
/// whole stream.
pub proof fn first_block_announces_the_count(payload: Seq<u8>, block_info: int)
    requires
        payload.len() <= u16::MAX,
        block_info >= HEADER_BITS,
    ensures
        blocks_needed(declared_len(framed(payload, block_info).take(block_info)), block_info)
            * block_info == framed(payload, block_info).len(),
{
    let bits = framed(payload, block_info);
    let len = payload.len() as u16;
    lemma_block_total(payload.len() as int, block_info);
    framed_payload_comes_back(payload, block_info);
    lemma_some_block(payload.len() as int, block_info);
    assert(bits.len() >= block_info) by (nonlinear_arith)
        requires
            bits.len() == blocks_needed(payload.len() as int, block_info) * block_info,
            blocks_needed(payload.len() as int, block_info) >= 1,
            block_info >= 16,
    ;
    let first = bits.take(block_info);
    assert(first.take(16) =~= header(len));
    lemma_header_reads_back(first, len, 16);
    lemma_no_shift(len);
}

/// The number in sixteen bits, the first of them worth the most.
pub open spec fn sixteen_bits(s: Seq<u8>) -> int {
    32768 * s[0] + 16384 * s[1] + 8192 * s[2] + 4096 * s[3] + 2048 * s[4] + 1024 * s[5] + 512 * s[6]
        + 256 * s[7] + 128 * s[8] + 64 * s[9] + 32 * s[10] + 16 * s[11] + 8 * s[12] + 4 * s[13] + 2
        * s[14] + s[15]
}

/// What the stream of a payload holds: the length in sixteen bits, the first of them worth
/// the most; the bits of the payload; and zeros, fewer than a block of them.
pub proof fn stream_is_length_payload_and_zeros(payload: Seq<u8>, block_info: int)
    requires
        payload.len() <= u16::MAX,
        block_info >= 1,
    ensures
        ({
            let s = framed(payload, block_info);
            let end = 16 + 8 * payload.len();
            &&& end <= s.len() < end + block_info
            &&& s.len() == blocks_needed(payload.len() as int, block_info) * block_info
            &&& sixteen_bits(s) == payload.len()
            &&& forall|i: int|
                0 <= i < 8 * payload.len() ==> s[16 + i] == #[trigger] crate::bits::bits_of(
                    payload,
                )[i]
            &&& forall|i: int| end <= i < s.len() ==> #[trigger] s[i] == 0
        }),
{
    let s = framed(payload, block_info);
    lemma_block_total(payload.len() as int, block_info);
    framed_payload_comes_back(payload, block_info);
    let len = payload.len() as u16;
    assert forall|i: int| 0 <= i < 16 implies #[trigger] s[i] & 1 == s[i] && s[i] <= 1 by {
        let k = (15 - i) as u16;
        let b = ((len >> k) & 1u16) as u8;
        assert(s[i] == header(len)[i]);
        assert(b & 1 == b && b <= 1) by (bit_vector)
            requires
                b == ((len >> k) & 1u16) as u8,
        ;
    }
    lemma_sixteen(s);
    let body = header(len) + crate::bits::bits_of(payload);
    assert forall|i: int| 0 <= i < 8 * payload.len() implies s[16 + i]
        == #[trigger] crate::bits::bits_of(payload)[i] by {
        assert(s[16 + i] == body[16 + i]);
    }
}

/// What a header declares is the number in its sixteen bits.
proof fn lemma_sixteen(s: Seq<u8>)
    requires
        s.len() >= 16,
        forall|i: int| 0 <= i < 16 ==> #[trigger] s[i] & 1 == s[i],
    ensures
        declared_len(s) == sixteen_bits(s),
{
    assert(s[0] & 1 == s[0] && s[1] & 1 == s[1] && s[2] & 1 == s[2] && s[3] & 1 == s[3]);
    assert(s[4] & 1 == s[4] && s[5] & 1 == s[5] && s[6] & 1 == s[6] && s[7] & 1 == s[7]);
    assert(s[8] & 1 == s[8] && s[9] & 1 == s[9] && s[10] & 1 == s[10] && s[11] & 1 == s[11]);
    assert(s[12] & 1 == s[12] && s[13] & 1 == s[13] && s[14] & 1 == s[14] && s[15] & 1 == s[15]);
    reveal_with_fuel(header_value, 17);
}

/// A stream is refused where it is shorter than its header, or than what the header declares,
/// and read otherwise: so many bytes as declared, from behind the header.
pub proof fn short_streams_are_refused(s: Seq<u8>)
    requires
        forall|i: int| 0 <= i < s.len() ==> #[trigger] s[i] & 1 == s[i],
    ensures
        deframed(s) is Ok <==> s.len() >= 16 && s.len() >= 16 + 8 * sixteen_bits(s),
        deframed(s) matches Ok(payload) ==> payload.len() == sixteen_bits(s) && payload
            == crate::bits::bytes_of(s.subrange(16, 16 + 8 * sixteen_bits(s))),
{
    if s.len() >= 16 {
        lemma_sixteen(s);
        lemma_declared_is_a_length(s, 16);
    }
}

proof fn lemma_declared_is_a_length(s: Seq<u8>, n: nat)
    ensures
        header_value(s, n) >= 0,
    decreases n,
{
    if n > 0 {
        lemma_declared_is_a_length(s, (n - 1) as nat);
    }
}

} // verus!
