//! The FT8 LDPC(174,91) encoder: 77 message bits, their CRC-14, then 83
//! parity bits, each the parity of the 91 message-and-CRC bits under one
//! row of the generator matrix. The matrix comes as its 83 rows of hex
//! digits (23 digits, the last carrying three bits).
use vstd::prelude::*;
use vstd::string::StringSliceAdditionalSpecFns;
use crate::bits::{compute_crc14, crc14_of, crc_bits, crc14_matches, lemma_crc_appended_passes};
use crate::tones::{frame_tone, get_ft8_tones_from_codeword, codeword_symbols_ok, tone_bits};

verus! {

/// The value of a hex digit, zero for any other byte.
pub open spec fn hex_val(b: u8) -> u8 {
    if 0x30 <= b <= 0x39 {
        (b - 0x30) as u8
    } else if 0x61 <= b <= 0x66 {
        (b - 0x57) as u8
    } else if 0x41 <= b <= 0x46 {
        (b - 0x37) as u8
    } else {
        0u8
    }
}

/// Generator entry `col` of a row written in hex: bit `3 - col % 4` of
/// digit `col / 4`, most significant first.
pub open spec fn g_entry(row: Seq<u8>, col: int) -> u8 {
    (hex_val(row[col / 4]) >> ((3 - col % 4) as u8)) & 1u8
}

/// The hex rows are enough for the matrix: 83 rows of at least 23 bytes.
pub open spec fn g_hex_ok(g_hex: Seq<&str>) -> bool {
    &&& g_hex.len() >= 83
    &&& forall|i: int| 0 <= i < 83 ==> (#[trigger] g_hex[i]).spec_bytes().len() >= 23
}

/// The 83 x 91 generator matrix the hex rows describe.
pub open spec fn g_matrix_of(g_hex: Seq<&str>) -> Seq<Seq<u8>> {
    Seq::new(83, |i: int| Seq::new(91, |c: int| g_entry(g_hex[i].spec_bytes(), c)))
}

/// The message bits followed by their CRC-14.
pub open spec fn with_crc(msg: Seq<u8>) -> Seq<u8> {
    msg + crc_bits(crc14_of(msg))
}

/// The sum of `m[j] * row[j]` over `j < n`.
pub open spec fn dot_bits(m: Seq<u8>, row: Seq<u8>, n: int) -> int
    decreases n,
{
    if n <= 0 {
        0
    } else {
        dot_bits(m, row, n - 1) + m[n - 1] * row[n - 1]
    }
}

/// The 83 parity bits of a 91-bit word under a generator matrix.
pub open spec fn parity_bits(m: Seq<u8>, gm: Seq<Seq<u8>>) -> Seq<u8> {
    Seq::new(83, |i: int| (dot_bits(m, gm[i], 91) % 2) as u8)
}

/// The codeword of a message: message, CRC-14, parity bits.
pub open spec fn encoded(msg: Seq<u8>, g_hex: Seq<&str>) -> Seq<u8> {
    with_crc(msg) + parity_bits(with_crc(msg), g_matrix_of(g_hex))
}

/// The bits of the message that enter the parity sums are bits.
pub open spec fn message_bits_ok(msg: Seq<u8>) -> bool {
    &&& msg.len() >= 77
    &&& forall|j: int| 0 <= j < msg.len() && j < 91 ==> #[trigger] msg[j] <= 1
}

fn hex_digit(b: u8) -> (v: u8)
    ensures
        v == hex_val(b),
        v < 16,
{
    if 0x30 <= b && b <= 0x39 {
        b - 0x30
    } else if 0x61 <= b && b <= 0x66 {
        b - 0x57
    } else if 0x41 <= b && b <= 0x46 {
        b - 0x37
    } else {
        0
    }
}

/// Builds the generator matrix from its hex rows.
pub fn generate_ldpc_g_matrix(g_hex: &[&str]) -> (gen: Vec<Vec<u8>>)
    requires
        g_hex_ok(g_hex@),
    ensures
        gen@.len() == 83,
        forall|i: int| 0 <= i < 83 ==> (#[trigger] gen@[i])@ == g_matrix_of(g_hex@)[i],
{
    let mut gen: Vec<Vec<u8>> = Vec::new();
    let mut i: usize = 0;
    while i < 83
        invariant
            g_hex_ok(g_hex@),
            i <= 83,
            gen@.len() == i,
            forall|r: int| 0 <= r < i ==> (#[trigger] gen@[r])@ == g_matrix_of(g_hex@)[r],
        decreases 83 - i,
    {
        let hex = g_hex[i].as_bytes();
        assert(g_hex@[i as int].spec_bytes().len() >= 23);
        let mut row: Vec<u8> = Vec::new();
        let mut c: usize = 0;
        while c < 91
            invariant
                c <= 91,
                row@.len() == c,
                forall|k: int| 0 <= k < c ==> #[trigger] row@[k] == 0u8,
            decreases 91 - c,
        {
            row.push(0);
            c = c + 1;
        }
        let mut j: usize = 0;
        while j < 23
            invariant
                hex@ == g_hex@[i as int].spec_bytes(),
                hex@.len() >= 23,
                j <= 23,
                row@.len() == 91,
                forall|k: int| 0 <= k < 91 && k < 4 * j ==> #[trigger] row@[k] == g_entry(hex@, k),
                forall|k: int| 4 * j <= k < 91 ==> #[trigger] row@[k] == 0u8,
            decreases 23 - j,
        {
            let val = hex_digit(hex[j]);
            let limit: usize = if j == 22 { 3 } else { 4 };
            let mut jj: usize = 1;
            while jj <= limit
                invariant
                    hex@ == g_hex@[i as int].spec_bytes(),
                    hex@.len() >= 23,
                    j < 23,
                    limit == (if j == 22 { 3usize } else { 4usize }),
                    1 <= jj <= limit + 1,
                    val == hex_val(hex@[j as int]),
                    val < 16,
                    row@.len() == 91,
                    forall|k: int| 0 <= k < 91 && k < 4 * j + jj - 1 ==> #[trigger] row@[k] == g_entry(hex@, k),
                    forall|k: int| 4 * j + jj - 1 <= k < 91 ==> #[trigger] row@[k] == 0u8,
                decreases limit + 1 - jj,
            {
                let col: usize = j * 4 + jj - 1;
                let s: u8 = (4 - jj) as u8;
                proof {
                    assert(col as int / 4 == j as int);
                    assert(col as int % 4 == jj as int - 1);
                    assert(((val & (1u8 << s)) != 0u8) == (((val >> s) & 1u8) == 1u8)) by (bit_vector)
                        requires
                            s < 8u8,
                    ;
                    assert(((val >> s) & 1u8) <= 1u8) by (bit_vector);
                }
                if (val & (1u8 << s)) != 0 {
                    row.set(col, 1);
                }
                assert(row@[col as int] == g_entry(hex@, col as int));
                jj = jj + 1;
            }
            j = j + 1;
        }
        assert(row@ =~= g_matrix_of(g_hex@)[i as int]);
        gen.push(row);
        i = i + 1;
    }
    gen
}

proof fn lemma_dot_bound(m: Seq<u8>, row: Seq<u8>, n: int)
    requires
        0 <= n <= m.len(),
        n <= row.len(),
        forall|j: int| 0 <= j < n ==> #[trigger] m[j] <= 1,
        forall|j: int| 0 <= j < n ==> #[trigger] row[j] <= 1,
    ensures
        0 <= dot_bits(m, row, n) <= n,
    decreases n,
{
    if n > 0 {
        lemma_dot_bound(m, row, n - 1);
        assert(m[n - 1] * row[n - 1] <= 1) by (nonlinear_arith)
            requires
                m[n - 1] <= 1,
                row[n - 1] <= 1,
        ;
    }
}

/// Encodes 77 message bits into a 174-bit codeword with the generator
/// matrix given by its hex rows.
pub fn encode174_91(message77: &[u8], g_hex: &[&str]) -> (codeword: Vec<u8>)
    requires
        message_bits_ok(message77@),
        g_hex_ok(g_hex@),
        message77@.len() + 97 <= usize::MAX,
    ensures
        codeword@ == encoded(message77@, g_hex@),
{
    let g = generate_ldpc_g_matrix(g_hex);
    let crc = compute_crc14(message77);
    let mut message: Vec<u8> = Vec::new();
    let mut k: usize = 0;
    while k < message77.len()
        invariant
            k <= message77@.len(),
            message@ == message77@.subrange(0, k as int),
        decreases message77@.len() - k,
    {
        message.push(message77[k]);
        k = k + 1;
    }
    let mut i: usize = 0;
    while i < 14
        invariant
            i <= 14,
            crc == crc14_of(message77@),
            message@ == message77@ + crc_bits(crc).subrange(0, i as int),
        decreases 14 - i,
    {
        let s: u16 = (13 - i) as u16;
        message.push(((crc >> s) & 1) as u8);
        i = i + 1;
    }
    let ghost m91 = with_crc(message77@);
    assert(message@ =~= m91);
    assert forall|j: int| 0 <= j < 91 implies #[trigger] m91[j] <= 1 by {
        if j >= message77@.len() {
            let t: int = j - message77@.len();
            let sh: u16 = (13 - t) as u16;
            assert(((crc >> sh) & 1u16) <= 1u16) by (bit_vector);
        }
    }
    let mut codeword: Vec<u8> = Vec::new();
    let mut k: usize = 0;
    while k < message.len()
        invariant
            k <= message@.len(),
            codeword@ == message@.subrange(0, k as int),
        decreases message@.len() - k,
    {
        codeword.push(message[k]);
        k = k + 1;
    }
    assert(codeword@ =~= m91);
    let ghost gm = g_matrix_of(g_hex@);
    let mut r: usize = 0;
    while r < 83
        invariant
            r <= 83,
            gm == g_matrix_of(g_hex@),
            g@.len() == 83,
            forall|q: int| 0 <= q < 83 ==> (#[trigger] g@[q])@ == gm[q],
            message@ == m91,
            m91 == with_crc(message77@),
            m91.len() >= 91,
            forall|j: int| 0 <= j < 91 ==> #[trigger] m91[j] <= 1,
            codeword@ == m91 + parity_bits(m91, gm).subrange(0, r as int),
        decreases 83 - r,
    {
        let row = &g[r];
        assert(row@ == gm[r as int]);
        assert(row@.len() == 91);
        assert forall|j: int| 0 <= j < 91 implies #[trigger] row@[j] <= 1 by {
            let b = hex_val(g_hex@[r as int].spec_bytes()[j / 4]);
            let s: u8 = (3 - j % 4) as u8;
            assert(((b >> s) & 1u8) <= 1u8) by (bit_vector);
            assert(row@[j] == g_entry(g_hex@[r as int].spec_bytes(), j));
        }
        let mut sum: u8 = 0;
        let mut j: usize = 0;
        while j < 91
            invariant
                j <= 91,
                row@ == gm[r as int],
                row@.len() == 91,
                message@ == m91,
                m91.len() >= 91,
                forall|q: int| 0 <= q < 91 ==> #[trigger] m91[q] <= 1,
                forall|q: int| 0 <= q < 91 ==> #[trigger] row@[q] <= 1,
                sum == dot_bits(m91, row@, j as int),
            decreases 91 - j,
        {
            proof {
                lemma_dot_bound(m91, row@, j as int);
                assert(m91[j as int] * row@[j as int] <= 1) by (nonlinear_arith)
                    requires
                        m91[j as int] <= 1,
                        row@[j as int] <= 1,
                ;
                assert(m91[j as int] * row@[j as int] >= 0) by (nonlinear_arith)
                    requires
                        m91[j as int] >= 0,
                        row@[j as int] >= 0,
                ;
            }
            sum = sum + message[j] * row[j];
            j = j + 1;
        }
        codeword.push(sum % 2);
        proof {
            assert(parity_bits(m91, gm)[r as int] == (dot_bits(m91, gm[r as int], 91) % 2) as u8);
            assert(codeword@ =~= m91 + parity_bits(m91, gm).subrange(0, r + 1));
        }
        r = r + 1;
    }
    assert(parity_bits(m91, gm).subrange(0, 83) =~= parity_bits(m91, gm));
    codeword
}

/// The tones of the frame that carries 77 message bits.
pub fn get_ft8_tones_from_77bits(msgbits: &[u8], g_hex: &[&str]) -> (itone: [i32; 79])
    requires
        message_bits_ok(msgbits@),
        forall|j: int| 0 <= j < msgbits@.len() && j < 174 ==> #[trigger] msgbits@[j] <= 1,
        g_hex_ok(g_hex@),
        msgbits@.len() + 97 <= usize::MAX,
    ensures
        forall|k: int| 0 <= k < 79 ==> itone[k] == frame_tone(encoded(msgbits@, g_hex@), k),
{
    let codeword = encode174_91(msgbits, g_hex);
    proof {
        lemma_encoded_bits(msgbits@, g_hex@);
    }
    get_ft8_tones_from_codeword(&codeword)
}

proof fn lemma_encoded_bits(msg: Seq<u8>, g_hex: Seq<&str>)
    requires
        message_bits_ok(msg),
        forall|j: int| 0 <= j < msg.len() && j < 174 ==> #[trigger] msg[j] <= 1,
    ensures
        codeword_symbols_ok(encoded(msg, g_hex)),
{
    let cw = encoded(msg, g_hex);
    let c = crc14_of(msg);
    assert forall|j: int| 0 <= j < 174 implies #[trigger] cw[j] <= 1 by {
        if j >= msg.len() && j < msg.len() + 14 {
            let sh: u16 = (13 - (j - msg.len())) as u16;
            assert(((c >> sh) & 1u16) <= 1u16) by (bit_vector);
        }
    }
    assert forall|t: int| 0 <= t < 58 implies tone_bits(cw, t) < 8 by {
        assert(cw[3 * t] <= 1 && cw[3 * t + 1] <= 1 && cw[3 * t + 2] <= 1);
    }
}

/// Every codeword of a 77-bit message carries the message in its first 77
/// bits, and its first 91 bits pass the CRC check: what the encoder sends,
/// the decoder's CRC test accepts.
pub proof fn lemma_codeword_passes_crc(msg: Seq<u8>, g_hex: Seq<&str>)
    requires
        msg.len() == 77,
    ensures
        encoded(msg, g_hex).len() == 174,
        encoded(msg, g_hex).subrange(0, 77) == msg,
        crc14_matches(encoded(msg, g_hex).subrange(0, 91)),
{
    let cw = encoded(msg, g_hex);
    assert(cw.subrange(0, 91) =~= with_crc(msg));
    assert(cw.subrange(0, 77) =~= msg);
    lemma_crc_appended_passes(msg);
}

} // verus!
