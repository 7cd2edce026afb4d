//! What the CRC-14 and the LDPC encoder promise of every message: the CRC
//! is linear over GF(2) and catches every single-bit error of a coded word,
//! and the encoder is linear over GF(2).
use vstd::prelude::*;
use vstd::string::StringSliceAdditionalSpecFns;
use crate::ldpc::{dot_bits, encoded, g_matrix_of, hex_val, parity_bits, with_crc};
use crate::bits::{bits_u16, crc14_matches, crc14_of, crc_bits, crc_fold, crc_step, lemma_crc_appended_passes, lemma_crc_bits_prefix, lemma_crc_fold_bound};

verus! {

/// Every element is a bit.
pub open spec fn is_bits(a: Seq<u8>) -> bool {
    forall|i: int| 0 <= i < a.len() ==> #[trigger] a[i] <= 1
}

/// The elementwise exclusive or of two bit sequences of one length.
pub open spec fn xor_bits(a: Seq<u8>, b: Seq<u8>) -> Seq<u8> {
    Seq::new(a.len(), |i: int| a[i] ^ b[i])
}

/// The word with bit `k` flipped.
pub open spec fn flip_bit(w: Seq<u8>, k: int) -> Seq<u8> {
    w.update(k, w[k] ^ 1u8)
}

/// `n` zero bits.
pub open spec fn zeros(n: nat) -> Seq<u8> {
    Seq::new(n, |i: int| 0u8)
}

proof fn lemma_crc_step_linear(c1: u16, c2: u16, b1: u8, b2: u8)
    requires
        c1 < 0x4000,
        c2 < 0x4000,
        b1 <= 1,
        b2 <= 1,
    ensures
        crc_step(c1 ^ c2, b1 ^ b2) == crc_step(c1, b1) ^ crc_step(c2, b2),
{
    assert(crc_step(c1 ^ c2, b1 ^ b2) == crc_step(c1, b1) ^ crc_step(c2, b2)) by (bit_vector)
        requires
            c1 < 0x4000u16,
            c2 < 0x4000u16,
            b1 <= 1u8,
            b2 <= 1u8,
    ;
}

/// The CRC register is linear: the register of the exclusive or of two
/// bit streams is the exclusive or of their registers.
pub proof fn lemma_crc_fold_linear(a: Seq<u8>, b: Seq<u8>)
    requires
        a.len() == b.len(),
        is_bits(a),
        is_bits(b),
    ensures
        crc_fold(xor_bits(a, b)) == crc_fold(a) ^ crc_fold(b),
    decreases a.len(),
{
    if a.len() > 0 {
        let x = xor_bits(a, b);
        assert(x.drop_last() =~= xor_bits(a.drop_last(), b.drop_last()));
        lemma_crc_fold_linear(a.drop_last(), b.drop_last());
        lemma_crc_fold_bound(a.drop_last());
        lemma_crc_fold_bound(b.drop_last());
        assert(a.last() <= 1 && b.last() <= 1);
        lemma_crc_step_linear(crc_fold(a.drop_last()), crc_fold(b.drop_last()), a.last(), b.last());
    } else {
        assert(xor_bits(a, b).len() == 0);
        assert(0u16 ^ 0u16 == 0u16) by (bit_vector);
    }
}

/// The CRC-14 of the exclusive or of two 77-bit messages is the exclusive
/// or of their CRCs.
pub proof fn lemma_crc14_linear(a: Seq<u8>, b: Seq<u8>)
    requires
        a.len() == 77,
        b.len() == 77,
        is_bits(a),
        is_bits(b),
    ensures
        crc14_of(xor_bits(a, b)) == crc14_of(a) ^ crc14_of(b),
{
    let z = Seq::new(19, |i: int| 0u8);
    let pa = a.subrange(0, 77) + z;
    let pb = b.subrange(0, 77) + z;
    assert(xor_bits(a, b).subrange(0, 77) + z =~= xor_bits(pa, pb)) by {
        assert forall|i: int| 0 <= i < 96 implies (xor_bits(a, b).subrange(0, 77) + z)[i] == xor_bits(pa, pb)[i] by {
            if i >= 77 {
                assert(0u8 ^ 0u8 == 0u8) by (bit_vector);
            }
        }
    }
    lemma_crc_fold_linear(pa, pb);
}

proof fn lemma_fold_zeros(n: nat)
    ensures
        crc_fold(zeros(n)) == 0,
    decreases n,
{
    if n > 0 {
        assert(zeros(n).drop_last() =~= zeros((n - 1) as nat));
        lemma_fold_zeros((n - 1) as nat);
        assert(crc_step(0u16, 0u8) == 0u16) by (bit_vector);
    }
}

proof fn lemma_step_zero_keeps_nonzero(c: u16)
    requires
        c != 0,
        c < 0x4000,
    ensures
        crc_step(c, 0u8) != 0,
{
    assert(crc_step(c, 0u8) != 0u16) by (bit_vector)
        requires
            c != 0u16,
            c < 0x4000u16,
    ;
}

proof fn lemma_fold_nonzero_then_zeros(s: Seq<u8>, n: nat)
    requires
        crc_fold(s) != 0,
    ensures
        crc_fold(s + zeros(n)) != 0,
    decreases n,
{
    if n == 0 {
        assert(s + zeros(0) =~= s);
    } else {
        lemma_fold_nonzero_then_zeros(s, (n - 1) as nat);
        let t = s + zeros(n);
        assert(t.drop_last() =~= s + zeros((n - 1) as nat));
        lemma_crc_fold_bound(t.drop_last());
        lemma_step_zero_keeps_nonzero(crc_fold(t.drop_last()));
    }
}

/// The 77-bit message with only bit `k` set.
pub open spec fn unit_msg(k: int) -> Seq<u8> {
    Seq::new(77, |i: int| if i == k { 1u8 } else { 0u8 })
}

proof fn lemma_unit_crc_nonzero(k: int)
    requires
        0 <= k < 77,
    ensures
        crc14_of(unit_msg(k)) != 0,
{
    let padded = unit_msg(k).subrange(0, 77) + Seq::new(19, |i: int| 0u8);
    let head = zeros(k as nat).push(1u8);
    assert(head.drop_last() =~= zeros(k as nat));
    lemma_fold_zeros(k as nat);
    assert(crc_step(0u16, 1u8) == 1u16) by (bit_vector);
    assert(crc_fold(head) == 1);
    lemma_fold_nonzero_then_zeros(head, (95 - k) as nat);
    assert(padded =~= head + zeros((95 - k) as nat));
}

proof fn lemma_bits_u16_linear(a: Seq<u8>, b: Seq<u8>)
    requires
        a.len() == b.len(),
        is_bits(a),
        is_bits(b),
    ensures
        bits_u16(xor_bits(a, b)) == bits_u16(a) ^ bits_u16(b),
    decreases a.len(),
{
    if a.len() > 0 {
        let x = xor_bits(a, b);
        assert(x.drop_last() =~= xor_bits(a.drop_last(), b.drop_last()));
        lemma_bits_u16_linear(a.drop_last(), b.drop_last());
        let p = bits_u16(a.drop_last());
        let q = bits_u16(b.drop_last());
        let u = a.last();
        let v = b.last();
        assert(u <= 1 && v <= 1);
        assert((((p ^ q) << 1u16) | ((u ^ v) as u16)) as u16 == (((p << 1u16) | (u as u16)) as u16) ^ (((q << 1u16) | (v as u16)) as u16)) by (bit_vector)
            requires
                u <= 1u8,
                v <= 1u8,
        ;
    } else {
        assert(0u16 ^ 0u16 == 0u16) by (bit_vector);
    }
}

/// The 14-bit word with only bit `j` set.
pub open spec fn unit14(j: int) -> Seq<u8> {
    Seq::new(14, |i: int| if i == j { 1u8 } else { 0u8 })
}

proof fn lemma_bits_u16_small_nonzero(s: Seq<u8>)
    requires
        is_bits(s),
        s.len() <= 15,
        exists|i: int| 0 <= i < s.len() && s[i] == 1,
    ensures
        bits_u16(s) != 0,
        bits_u16(s) < (1u32 << (s.len() as u32)),
    decreases s.len(),
{
    lemma_bits_u16_bound(s.drop_last());
    let p = bits_u16(s.drop_last());
    let u = s.last();
    let n: u32 = (s.len() - 1) as u32;
    assert(u <= 1);
    if u == 1 {
        assert((((p << 1u16) | (u as u16)) as u16) != 0u16 && ((((p << 1u16) | (u as u16)) as u16) as u32) < (1u32 << ((n + 1) as u32))) by (bit_vector)
            requires
                u == 1u8,
                n < 15u32,
                (p as u32) < (1u32 << n),
        ;
    } else {
        let w = choose|i: int| 0 <= i < s.len() && s[i] == 1;
        assert(s.drop_last()[w] == 1);
        lemma_bits_u16_small_nonzero(s.drop_last());
        assert((((p << 1u16) | (u as u16)) as u16) != 0u16 && ((((p << 1u16) | (u as u16)) as u16) as u32) < (1u32 << ((n + 1) as u32))) by (bit_vector)
            requires
                u == 0u8,
                p != 0u16,
                n < 15u32,
                (p as u32) < (1u32 << n),
        ;
    }
}

proof fn lemma_bits_u16_bound(s: Seq<u8>)
    requires
        is_bits(s),
        s.len() <= 15,
    ensures
        (bits_u16(s) as u32) < (1u32 << (s.len() as u32)),
    decreases s.len(),
{
    if s.len() == 0 {
        assert(0u32 < (1u32 << 0u32)) by (bit_vector);
    } else {
        lemma_bits_u16_bound(s.drop_last());
        let p = bits_u16(s.drop_last());
        let u = s.last();
        let n: u32 = (s.len() - 1) as u32;
        assert(u <= 1);
        assert(((((p << 1u16) | (u as u16)) as u16) as u32) < (1u32 << ((n + 1) as u32))) by (bit_vector)
            requires
                u <= 1u8,
                n < 15u32,
                (p as u32) < (1u32 << n),
        ;
    }
}

/// The FT8 CRC-14 generator polynomial
/// x^14 + x^13 + x^10 + x^9 + x^8 + x^6 + x^4 + x^2 + x + 1 (0x6757),
/// its 15 coefficients, highest power first.
pub open spec fn ft8_crc_generator() -> Seq<u8> {
    seq![1u8, 1, 0, 0, 1, 1, 1, 0, 1, 0, 1, 0, 1, 1, 1]
}

/// The register while the generator's coefficients are shifted in.
spec fn generator_register(k: int) -> u16 {
    seq![0u16, 1, 3, 6, 12, 25, 51, 103, 206, 413, 826, 1653, 3306, 6613, 13227, 0][k]
}

proof fn lemma_generator_register(k: int)
    requires
        0 <= k <= 15,
    ensures
        crc_fold(ft8_crc_generator().subrange(0, k)) == generator_register(k),
    decreases k,
{
    let g = ft8_crc_generator();
    if k == 0 {
        assert(g.subrange(0, 0) =~= Seq::<u8>::empty());
    } else {
        lemma_generator_register(k - 1);
        assert(g.subrange(0, k).drop_last() =~= g.subrange(0, k - 1));
        assert(g.subrange(0, k).last() == g[k - 1]);
        assert(crc_step(0u16, 1u8) == 1u16 && crc_step(1u16, 1u8) == 3u16 && crc_step(3u16, 0u8) == 6u16
            && crc_step(6u16, 0u8) == 12u16 && crc_step(12u16, 1u8) == 25u16 && crc_step(25u16, 1u8) == 51u16
            && crc_step(51u16, 1u8) == 103u16 && crc_step(103u16, 0u8) == 206u16 && crc_step(206u16, 1u8) == 413u16
            && crc_step(413u16, 0u8) == 826u16 && crc_step(826u16, 1u8) == 1653u16 && crc_step(1653u16, 0u8) == 3306u16
            && crc_step(3306u16, 1u8) == 6613u16 && crc_step(6613u16, 1u8) == 13227u16 && crc_step(13227u16, 1u8) == 0u16)
            by (bit_vector);
    }
}

/// Leading zero bits leave the register at zero.
proof fn lemma_fold_leading_zeros(k: nat, t: Seq<u8>)
    ensures
        crc_fold(zeros(k) + t) == crc_fold(t),
    decreases t.len(),
{
    if t.len() == 0 {
        assert(zeros(k) + t =~= zeros(k));
        lemma_fold_zeros(k);
    } else {
        assert((zeros(k) + t).drop_last() =~= zeros(k) + t.drop_last());
        lemma_fold_leading_zeros(k, t.drop_last());
    }
}

/// Zero bits after a cleared register leave it cleared.
proof fn lemma_fold_cleared_then_zeros(t: Seq<u8>, b: nat)
    requires
        crc_fold(t) == 0,
    ensures
        crc_fold(t + zeros(b)) == 0,
    decreases b,
{
    if b == 0 {
        assert(t + zeros(0) =~= t);
    } else {
        lemma_fold_cleared_then_zeros(t, (b - 1) as nat);
        assert((t + zeros(b)).drop_last() =~= t + zeros((b - 1) as nat));
        lemma_fold_zeros(1);
        assert(zeros(1).drop_last() =~= Seq::<u8>::empty());
        assert(crc_fold(Seq::<u8>::empty()) == 0u16);
        assert(crc_step(0u16, 0u8) == 0u16);
        assert((t + zeros(b)).last() == 0u8);
    }
}

/// The register is the remainder modulo the FT8 generator polynomial: the
/// generator, and every multiple of it by a power of x, leaves no
/// remainder, so adding one to any bit stream (the generator's
/// coefficients in place of zeros, `b` places from the end) leaves the
/// register as it was.
pub proof fn lemma_crc_generator_leaves_no_remainder(s: Seq<u8>, b: nat)
    requires
        is_bits(s),
    ensures
        crc_fold(ft8_crc_generator()) == 0,
        crc_fold(ft8_crc_generator() + zeros(b)) == 0,
        crc_fold(s + ft8_crc_generator() + zeros(b)) == crc_fold(s + zeros(15 + b)),
{
    let g = ft8_crc_generator();
    lemma_generator_register(15);
    assert(g.subrange(0, 15) =~= g);
    lemma_fold_cleared_then_zeros(g, b);
    let a = s + zeros(15 + b);
    let c = zeros(s.len()) + g + zeros(b);
    assert(is_bits(g)) by {
        assert forall|i: int| 0 <= i < g.len() implies #[trigger] g[i] <= 1 by {}
    }
    assert(is_bits(a));
    assert(is_bits(c));
    assert(xor_bits(a, c) =~= s + g + zeros(b)) by {
        assert forall|i: int| 0 <= i < a.len() implies #[trigger] xor_bits(a, c)[i] == (s + g + zeros(b))[i] by {
            if i < s.len() {
                let x = s[i];
                assert(x <= 1);
                assert(x ^ 0u8 == x) by (bit_vector);
            } else if i < s.len() + 15 {
                let y = g[i - s.len()];
                assert(0u8 ^ y == y) by (bit_vector);
            } else {
                assert(0u8 ^ 0u8 == 0u8) by (bit_vector);
            }
        }
    }
    lemma_crc_fold_linear(a, c);
    assert(zeros(s.len()) + g + zeros(b) =~= zeros(s.len()) + (g + zeros(b)));
    lemma_fold_leading_zeros(s.len(), g + zeros(b));
    let r = crc_fold(a);
    assert(r ^ 0u16 == r) by (bit_vector);
}

/// Up to 14 bits fit in the register unreduced: the register then holds
/// their binary value, most significant bit first.
pub proof fn lemma_crc_short_stream_unreduced(s: Seq<u8>)
    requires
        is_bits(s),
        s.len() <= 14,
    ensures
        crc_fold(s) == bits_u16(s),
    decreases s.len(),
{
    if s.len() > 0 {
        let d = s.drop_last();
        lemma_crc_short_stream_unreduced(d);
        lemma_bits_u16_bound(d);
        let c = bits_u16(d);
        let b = s.last();
        let n: u32 = d.len() as u32;
        assert(b <= 1);
        assert(crc_step(c, b) == ((c << 1u16) | (b as u16)) as u16) by (bit_vector)
            requires
                b <= 1u8,
                n <= 13u32,
                (c as u32) < (1u32 << n),
        ;
    }
}

/// The CRC check catches every single-bit error: a 77-bit message followed
/// by its CRC-14 passes, and flipping any one of those 91 bits makes the
/// word fail the check.
pub proof fn lemma_crc_detects_single_bit_errors(msg: Seq<u8>, k: int)
    requires
        msg.len() == 77,
        is_bits(msg),
        0 <= k < 91,
    ensures
        crc14_matches(msg + crc_bits(crc14_of(msg))),
        !crc14_matches(flip_bit(msg + crc_bits(crc14_of(msg)), k)),
{
    lemma_crc_appended_passes(msg);
    let c = crc14_of(msg);
    let w = msg + crc_bits(c);
    let f = flip_bit(w, k);
    lemma_crc_fold_bound(msg.subrange(0, 77) + Seq::new(19, |i: int| 0u8));
    assert(c < 0x4000);
    if k < 77 {
        let e = unit_msg(k);
        let m2 = xor_bits(msg, e);
        assert forall|i: int| 0 <= i < 77 implies #[trigger] e[i] <= 1 by {}
        assert(f.subrange(0, 77) =~= m2) by {
            assert forall|i: int| 0 <= i < 77 implies f.subrange(0, 77)[i] == m2[i] by {
                let b = msg[i];
                assert(b <= 1);
                assert(b ^ 0u8 == b && (b ^ 1u8) == (b ^ 1u8)) by (bit_vector);
            }
        }
        assert(f.subrange(77, 91) =~= crc_bits(c).subrange(0, 14));
        lemma_crc_bits_prefix(c, 14);
        assert(c >> 0u16 == c) by (bit_vector);
        lemma_crc14_linear(msg, e);
        lemma_unit_crc_nonzero(k);
        let x = crc14_of(e);
        assert(c ^ x != c) by (bit_vector)
            requires
                x != 0u16,
        ;
        assert(crc14_of(f) == crc14_of(f.subrange(0, 77))) by {
            assert(f.subrange(0, 77).subrange(0, 77) =~= f.subrange(0, 77));
        }
    } else {
        let j = k - 77;
        let cb = crc_bits(c);
        let e = unit14(j);
        assert forall|i: int| 0 <= i < 14 implies #[trigger] cb[i] <= 1 by {
            let s: u16 = (13 - i) as u16;
            assert(((c >> s) & 1u16) <= 1u16) by (bit_vector);
        }
        assert forall|i: int| 0 <= i < 14 implies #[trigger] e[i] <= 1 by {}
        assert(f.subrange(77, 91) =~= xor_bits(cb, e)) by {
            assert forall|i: int| 0 <= i < 14 implies f.subrange(77, 91)[i] == xor_bits(cb, e)[i] by {
                let b = cb[i];
                assert(b ^ 0u8 == b) by (bit_vector);
            }
        }
        assert(f.subrange(0, 77) =~= msg.subrange(0, 77));
        lemma_bits_u16_linear(cb, e);
        lemma_crc_bits_prefix(c, 14);
        assert(cb.subrange(0, 14) =~= cb);
        assert(c >> 0u16 == c) by (bit_vector);
        assert(e[j] == 1);
        lemma_bits_u16_small_nonzero(e);
        let x = bits_u16(e);
        assert(c ^ x != c) by (bit_vector)
            requires
                x != 0u16,
        ;
    }
}


proof fn lemma_crc_bits_linear(c1: u16, c2: u16)
    ensures
        crc_bits(c1 ^ c2) == xor_bits(crc_bits(c1), crc_bits(c2)),
{
    assert forall|i: int| 0 <= i < 14 implies crc_bits(c1 ^ c2)[i] == xor_bits(crc_bits(c1), crc_bits(c2))[i] by {
        let s: u16 = (13 - i) as u16;
        assert((((c1 ^ c2) >> s) & 1u16) as u8 == ((((c1 >> s) & 1u16) as u8) ^ (((c2 >> s) & 1u16) as u8))) by (bit_vector)
            requires
                s < 14u16,
        ;
    }
    assert(crc_bits(c1 ^ c2) =~= xor_bits(crc_bits(c1), crc_bits(c2)));
}

proof fn lemma_crc_bits_are_bits(c: u16)
    ensures
        is_bits(crc_bits(c)),
{
    assert forall|i: int| 0 <= i < 14 implies #[trigger] crc_bits(c)[i] <= 1 by {
        let s: u16 = (13 - i) as u16;
        assert(((c >> s) & 1u16) <= 1u16) by (bit_vector);
    }
}

proof fn lemma_dot_parity_linear(x: Seq<u8>, y: Seq<u8>, r: Seq<u8>, n: int)
    requires
        0 <= n <= x.len(),
        x.len() == y.len(),
        n <= r.len(),
        is_bits(x),
        is_bits(y),
        forall|i: int| 0 <= i < n ==> #[trigger] r[i] <= 1,
    ensures
        dot_bits(xor_bits(x, y), r, n) % 2 == (dot_bits(x, r, n) + dot_bits(y, r, n)) % 2,
        dot_bits(x, r, n) >= 0,
    decreases n,
{
    if n > 0 {
        lemma_dot_parity_linear(x, y, r, n - 1);
        let a = x[n - 1];
        let b = y[n - 1];
        let c = r[n - 1];
        assert(a <= 1 && b <= 1 && c <= 1);
        let t = xor_bits(x, y)[n - 1];
        assert(t == a ^ b);
        assert(a ^ b == (if a == b { 0u8 } else { 1u8 })) by (bit_vector)
            requires
                a <= 1u8,
                b <= 1u8,
        ;
        let d = dot_bits(xor_bits(x, y), r, n - 1);
        let dx = dot_bits(x, r, n - 1);
        let dy = dot_bits(y, r, n - 1);
        assert((d + t * c) % 2 == (dx + a * c + dy + b * c) % 2) by (nonlinear_arith)
            requires
                d % 2 == (dx + dy) % 2,
                a <= 1,
                b <= 1,
                c <= 1,
                t == (if a == b { 0u8 } else { 1u8 }),
        ;
        assert(a * c >= 0) by (nonlinear_arith)
            requires
                a >= 0,
                c >= 0,
        ;
    }
}

/// The encoder is linear over GF(2): the codeword of the exclusive or of
/// two 77-bit messages is the exclusive or of their codewords, and every
/// codeword is made of bits.
pub proof fn lemma_encoder_linear(a: Seq<u8>, b: Seq<u8>, g_hex: Seq<&str>)
    requires
        a.len() == 77,
        b.len() == 77,
        is_bits(a),
        is_bits(b),
    ensures
        is_bits(encoded(a, g_hex)),
        encoded(xor_bits(a, b), g_hex) == xor_bits(encoded(a, g_hex), encoded(b, g_hex)),
{
    let gm = g_matrix_of(g_hex);
    let x = xor_bits(a, b);
    lemma_crc14_linear(a, b);
    lemma_crc_bits_linear(crc14_of(a), crc14_of(b));
    lemma_crc_bits_are_bits(crc14_of(a));
    lemma_crc_bits_are_bits(crc14_of(b));
    let wa = with_crc(a);
    let wb = with_crc(b);
    let wx = with_crc(x);
    assert(wx =~= xor_bits(wa, wb)) by {
        assert forall|i: int| 0 <= i < 91 implies wx[i] == xor_bits(wa, wb)[i] by {
            if i >= 77 {
                assert(wx[i] == crc_bits(crc14_of(x))[i - 77]);
            }
        }
    }
    assert(is_bits(wa)) by {
        assert forall|i: int| 0 <= i < wa.len() implies #[trigger] wa[i] <= 1 by {
            if i >= 77 {
                assert(wa[i] == crc_bits(crc14_of(a))[i - 77]);
            }
        }
    }
    assert(is_bits(wb)) by {
        assert forall|i: int| 0 <= i < wb.len() implies #[trigger] wb[i] <= 1 by {
            if i >= 77 {
                assert(wb[i] == crc_bits(crc14_of(b))[i - 77]);
            }
        }
    }
    assert forall|q: int| 0 <= q < 83 implies parity_bits(wx, gm)[q] == (parity_bits(wa, gm)[q] ^ parity_bits(wb, gm)[q]) by {
        let row = gm[q];
        assert forall|j: int| 0 <= j < 91 implies #[trigger] row[j] <= 1 by {
            let h = hex_val(g_hex[q].spec_bytes()[j / 4]);
            let sh: u8 = (3 - j % 4) as u8;
            assert(((h >> sh) & 1u8) <= 1u8) by (bit_vector);
        }
        lemma_dot_parity_linear(wa, wb, row, 91);
        lemma_dot_parity_linear(wb, wa, row, 91);
        let da = dot_bits(wa, row, 91);
        let db = dot_bits(wb, row, 91);
        let pa = (da % 2) as u8;
        let pb = (db % 2) as u8;
        assert(((da + db) % 2) as u8 == pa ^ pb) by {
            assert(da % 2 == 0 || da % 2 == 1);
            assert(db % 2 == 0 || db % 2 == 1);
            assert(0u8 ^ 0u8 == 0u8 && 0u8 ^ 1u8 == 1u8 && 1u8 ^ 0u8 == 1u8 && 1u8 ^ 1u8 == 0u8) by (bit_vector);
            assert((da + db) % 2 == (if da % 2 == db % 2 { 0int } else { 1int })) by (nonlinear_arith)
                requires
                    da >= 0,
                    db >= 0,
            ;
        }
    }
    let ea = encoded(a, g_hex);
    let eb = encoded(b, g_hex);
    let ex = encoded(x, g_hex);
    assert(ex =~= xor_bits(ea, eb)) by {
        assert forall|i: int| 0 <= i < 174 implies ex[i] == xor_bits(ea, eb)[i] by {
            if i >= 91 {
                assert(ex[i] == parity_bits(wx, gm)[i - 91]);
                assert(ea[i] == parity_bits(wa, gm)[i - 91]);
                assert(eb[i] == parity_bits(wb, gm)[i - 91]);
            } else {
                assert(ex[i] == wx[i]);
                assert(ea[i] == wa[i]);
                assert(eb[i] == wb[i]);
            }
        }
    }
    assert forall|i: int| 0 <= i < ea.len() implies #[trigger] ea[i] <= 1 by {
        if i >= 91 {
            let d = dot_bits(wa, gm[i - 91], 91);
            assert(ea[i] == (d % 2) as u8);
        } else {
            assert(ea[i] == wa[i]);
        }
    }
}

} // verus!
