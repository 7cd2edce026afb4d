//! Bit-level helpers for FT8 message words: packing bit sequences into
//! integers, the CRC-14 check and the message-type fields.
use vstd::prelude::*;

verus! {

/// The big-endian value of a bit sequence, shifting each element in as
/// `(v << 1) | b` on a 16-bit register.
pub open spec fn bits_u16(bits: Seq<u8>) -> u16
    decreases bits.len(),
{
    if bits.len() == 0 {
        0u16
    } else {
        ((bits_u16(bits.drop_last()) << 1u16) | (bits.last() as u16)) as u16
    }
}

/// Packs a bit sequence into a `u16`, most significant bit first.
pub fn bits_to_int(bits: &[u8]) -> (val: u16)
    ensures
        val == bits_u16(bits@),
{
    let mut val: u16 = 0;
    let mut i: usize = 0;
    while i < bits.len()
        invariant
            i <= bits.len(),
            val == bits_u16(bits@.subrange(0, i as int)),
        decreases bits.len() - i,
    {
        proof {
            assert(bits@.subrange(0, i + 1).drop_last() =~= bits@.subrange(0, i as int));
        }
        val = (val << 1u16) | (bits[i] as u16);
        i = i + 1;
    }
    proof {
        assert(bits@.subrange(0, bits.len() as int) =~= bits@);
    }
    val
}

} // verus!

verus! {

/// The big-endian value of a bit sequence, shifting each element in as
/// `(v << 1) | b` on a `usize` register.
pub open spec fn bits_usize(bits: Seq<u8>) -> usize
    decreases bits.len(),
{
    if bits.len() == 0 {
        0usize
    } else {
        ((bits_usize(bits.drop_last()) << 1usize) | (bits.last() as usize)) as usize
    }
}

/// Packs a bit sequence into a `usize`, most significant bit first.
pub fn bits_to_usize(bits: &[u8]) -> (val: usize)
    ensures
        val == bits_usize(bits@),
{
    let mut val: usize = 0;
    let mut i: usize = 0;
    while i < bits.len()
        invariant
            i <= bits.len(),
            val == bits_usize(bits@.subrange(0, i as int)),
        decreases bits.len() - i,
    {
        proof {
            assert(bits@.subrange(0, i + 1).drop_last() =~= bits@.subrange(0, i as int));
        }
        val = (val << 1usize) | (bits[i] as usize);
        i = i + 1;
    }
    proof {
        assert(bits@.subrange(0, bits.len() as int) =~= bits@);
    }
    val
}

/// The generator polynomial of the FT8 CRC-14, without its top bit.
pub const CRC14_POLY: u16 = 0x2757;

/// One step of the CRC-14 shift register: shift `bit` in and reduce by the
/// polynomial when the bit leaving the 14-bit register was set.
pub open spec fn crc_step(crc: u16, bit: u8) -> u16 {
    let shifted = ((crc << 1u16) | (bit as u16)) as u16;
    let reduced = if (crc & 0x2000u16) != 0 {
        shifted ^ CRC14_POLY
    } else {
        shifted
    };
    reduced & 0x3fffu16
}

/// The register after feeding a bit sequence, starting from zero.
pub open spec fn crc_fold(bits: Seq<u8>) -> u16
    decreases bits.len(),
{
    if bits.len() == 0 {
        0u16
    } else {
        crc_step(crc_fold(bits.drop_last()), bits.last())
    }
}

/// The FT8 CRC-14 of a 77-bit message: the register after the 77 message
/// bits followed by 19 zero bits.
pub open spec fn crc14_of(msg: Seq<u8>) -> u16 {
    crc_fold(msg.subrange(0, 77) + Seq::new(19, |i: int| 0u8))
}

/// Computes the CRC-14 of the first 77 bits of `msg77`.
pub fn compute_crc14(msg77: &[u8]) -> (crc: u16)
    requires
        msg77.len() >= 77,
    ensures
        crc == crc14_of(msg77@),
        crc < 0x4000,
{
    let ghost padded = msg77@.subrange(0, 77) + Seq::new(19, |i: int| 0u8);
    let mut crc: u16 = 0;
    let mut bit_idx: usize = 0;
    while bit_idx < 96
        invariant
            msg77.len() >= 77,
            padded == msg77@.subrange(0, 77) + Seq::new(19, |i: int| 0u8),
            bit_idx <= 96,
            crc == crc_fold(padded.subrange(0, bit_idx as int)),
            crc < 0x4000,
        decreases 96 - bit_idx,
    {
        let next_bit: u8 = if bit_idx < 77 {
            msg77[bit_idx]
        } else {
            0
        };
        proof {
            assert(padded.subrange(0, bit_idx + 1).drop_last() =~= padded.subrange(
                0,
                bit_idx as int,
            ));
            assert(padded[bit_idx as int] == next_bit);
        }
        if (crc & 0x2000) != 0 {
            crc = ((crc << 1u16) | next_bit as u16) ^ CRC14_POLY;
        } else {
            crc = (crc << 1u16) | next_bit as u16;
        }
        let t = crc;
        crc = t & 0x3fff;
        assert(t & 0x3fffu16 < 0x4000u16) by (bit_vector);
        bit_idx = bit_idx + 1;
    }
    proof {
        assert(padded.subrange(0, 96) =~= padded);
    }
    crc
}

/// Whether the 14 CRC bits of a 91-bit word (positions 77..91) equal the
/// CRC-14 of its first 77 bits.
pub open spec fn crc14_matches(bits91: Seq<u8>) -> bool {
    bits_u16(bits91.subrange(77, 91)) == crc14_of(bits91)
}

/// The 14 bits of a CRC value, most significant first, as the encoder
/// appends them to the 77 message bits.
pub open spec fn crc_bits(c: u16) -> Seq<u8> {
    Seq::new(14, |i: int| ((c >> ((13 - i) as u16)) & 1u16) as u8)
}

pub(crate) proof fn lemma_crc_fold_bound(bits: Seq<u8>)
    ensures
        crc_fold(bits) < 0x4000,
    decreases bits.len(),
{
    if bits.len() > 0 {
        lemma_crc_fold_bound(bits.drop_last());
        let c = crc_fold(bits.drop_last());
        let b = bits.last();
        let shifted = ((c << 1u16) | (b as u16)) as u16;
        let reduced = if (c & 0x2000u16) != 0 {
            shifted ^ CRC14_POLY
        } else {
            shifted
        };
        assert(reduced & 0x3fffu16 < 0x4000u16) by (bit_vector);
    }
}

pub(crate) proof fn lemma_crc_bits_prefix(c: u16, n: int)
    requires
        c < 0x4000,
        0 <= n <= 14,
    ensures
        bits_u16(crc_bits(c).subrange(0, n)) == c >> ((14 - n) as u16),
    decreases n,
{
    if n == 0 {
        assert(crc_bits(c).subrange(0, 0) =~= Seq::<u8>::empty());
        assert(c >> 14u16 == 0u16) by (bit_vector)
            requires
                c < 0x4000u16,
        ;
    } else {
        lemma_crc_bits_prefix(c, n - 1);
        let sub = crc_bits(c).subrange(0, n);
        assert(sub.drop_last() =~= crc_bits(c).subrange(0, n - 1));
        let s: u16 = (14 - n) as u16;
        assert(sub.last() == ((c >> s) & 1u16) as u8);
        assert(((((c >> ((s + 1) as u16)) << 1u16) | (((c >> s) & 1u16) as u8 as u16)) as u16) == c
            >> s) by (bit_vector)
            requires
                s <= 13,
        ;
    }
}

/// A word made of 77 message bits followed by their CRC-14 passes the
/// CRC check: what the encoder appends, the decoder accepts.
pub proof fn lemma_crc_appended_passes(msg: Seq<u8>)
    requires
        msg.len() == 77,
    ensures
        crc14_matches(msg + crc_bits(crc14_of(msg))),
{
    let c = crc14_of(msg);
    let word = msg + crc_bits(c);
    lemma_crc_fold_bound(msg.subrange(0, 77) + Seq::new(19, |i: int| 0u8));
    assert(word.subrange(0, 77) =~= msg.subrange(0, 77));
    assert(word.subrange(77, 91) =~= crc_bits(c).subrange(0, 14));
    lemma_crc_bits_prefix(c, 14);
    assert(c >> 0u16 == c) by (bit_vector);
}

/// Checks the CRC-14 of a decoded 91-bit word.
pub fn check_crc14(bits91: &[u8]) -> (ok: bool)
    requires
        bits91.len() >= 91,
    ensures
        ok == crc14_matches(bits91@),
{
    let tail = slice_bits(bits91, 77, 91);
    let received = bits_to_int(&tail);
    let computed = compute_crc14(bits91);
    received == computed
}

/// A copy of `v[lo..hi]`.
pub fn slice_bits(v: &[u8], lo: usize, hi: usize) -> (r: Vec<u8>)
    requires
        lo <= hi <= v.len(),
    ensures
        r@ == v@.subrange(lo as int, hi as int),
{
    let mut r: Vec<u8> = Vec::new();
    let mut i = lo;
    while i < hi
        invariant
            lo <= i <= hi <= v.len(),
            r@ == v@.subrange(lo as int, i as int),
        decreases hi - i,
    {
        r.push(v[i]);
        i = i + 1;
    }
    r
}

/// The three-bit fields `n3` (bits 71..74) and `i3` (bits 74..77) of a
/// 77-bit message.
pub open spec fn n3_field(m: Seq<u8>) -> usize {
    (((m[71] as usize) << 2usize) | ((m[72] as usize) << 1usize) | (m[73] as usize)) as usize
}

pub open spec fn i3_field(m: Seq<u8>) -> usize {
    (((m[74] as usize) << 2usize) | ((m[75] as usize) << 1usize) | (m[76] as usize)) as usize
}

/// Returns `(n3, i3)` of a 77-bit message.
pub fn message_type(message77: &[u8]) -> (r: (usize, usize))
    requires
        message77.len() >= 77,
    ensures
        r == (n3_field(message77@), i3_field(message77@)),
{
    let n3v = ((message77[71] as usize) << 2usize) | ((message77[72] as usize) << 1usize) | (
    message77[73] as usize);
    let i3v = ((message77[74] as usize) << 2usize) | ((message77[75] as usize) << 1usize) | (
    message77[76] as usize);
    (n3v, i3v)
}

/// The message types a decoder may hand on: `i3` at most 5, and for
/// `i3 = 0` an `n3` at most 6 other than 2.
pub open spec fn valid_message_type(n3: usize, i3: usize) -> bool {
    !(i3 > 5 || (i3 == 0 && n3 > 6)) && !(i3 == 0 && n3 == 2)
}

pub fn is_valid_message_type(message77: &[u8]) -> (ok: bool)
    requires
        message77.len() >= 77,
    ensures
        ok == valid_message_type(n3_field(message77@), i3_field(message77@)),
{
    let (n3v, i3v) = message_type(message77);
    if i3v > 5 || (i3v == 0 && n3v > 6) {
        return false;
    }
    if i3v == 0 && n3v == 2 {
        return false;
    }
    true
}

/// Returns `(i3, n3)` of a 77-bit message, each read with `bits_to_usize`.
pub fn i3_n3(message77: &[u8]) -> (r: (usize, usize))
    requires
        message77.len() >= 77,
    ensures
        r == (bits_usize(message77@.subrange(74, 77)), bits_usize(message77@.subrange(71, 74))),
{
    let a = slice_bits(message77, 71, 74);
    let b = slice_bits(message77, 74, 77);
    let n3 = bits_to_usize(&a);
    let i3 = bits_to_usize(&b);
    (i3, n3)
}

} // verus!
