//! The FT8 79-symbol frame: Costas sync arrays, Gray-coded data symbols and
//! comparisons of tone sequences.
use vstd::prelude::*;

verus! {

/// The 7x7 Costas array sent at symbols 0..7, 36..43 and 72..79.
pub const ICOS7: [i32; 7] = [3, 1, 4, 0, 6, 5, 2];

/// Gray code from a 3-bit value to a tone number.
pub const GRAYMAP: [i32; 8] = [0, 1, 3, 2, 5, 6, 4, 7];

pub open spec fn costas_tone(i: int) -> i32 {
    seq![3i32, 1, 4, 0, 6, 5, 2][i]
}

pub open spec fn gray_tone(i: int) -> i32 {
    seq![0i32, 1, 3, 2, 5, 6, 4, 7][i]
}

/// The frame position of data symbol `i` (0..58): 7..36 then 43..72.
pub open spec fn data_pos(i: int) -> int {
    if i < 29 {
        i + 7
    } else {
        i + 14
    }
}

/// The position inside the Costas array of a sync symbol.
pub open spec fn costas_slot(k: int) -> Option<int> {
    if 0 <= k <= 6 {
        Some(k)
    } else if 36 <= k <= 42 {
        Some(k - 36)
    } else if 72 <= k <= 78 {
        Some(k - 72)
    } else {
        None
    }
}

/// The 79 frame positions split into the 21 sync positions (three Costas
/// arrays) and the 58 data positions, each data symbol at its own place.
pub proof fn lemma_frame_layout()
    ensures
        forall|i: int| 0 <= i < 58 ==> 0 <= #[trigger] data_pos(i) < 79 && costas_slot(data_pos(i)) is None,
        forall|i: int, j: int| 0 <= i < j < 58 ==> #[trigger] data_pos(i) != #[trigger] data_pos(j),
        forall|k: int| 0 <= k < 79 && (#[trigger] costas_slot(k)) is None ==> exists|i: int| 0 <= i < 58 && data_pos(i) == k,
{
    assert forall|k: int| 0 <= k < 79 && (#[trigger] costas_slot(k)) is None implies exists|i: int| 0 <= i < 58 && data_pos(i) == k by {
        if k < 36 {
            assert(data_pos(k - 7) == k);
        } else {
            assert(data_pos(k - 14) == k);
        }
    }
}

pub fn costas_index(k: usize) -> (r: Option<usize>)
    ensures
        match r {
            Some(i) => costas_slot(k as int) == Some(i as int),
            None => costas_slot(k as int) is None,
        },
{
    if k <= 6 {
        Some(k)
    } else if 36 <= k && k <= 42 {
        Some(k - 36)
    } else if 72 <= k && k <= 78 {
        Some(k - 72)
    } else {
        None
    }
}

pub fn data_symbol_index(i: usize) -> (k: usize)
    requires
        i < 58,
    ensures
        k == data_pos(i as int),
{
    if i < 29 {
        i + 7
    } else {
        i + 14
    }
}

/// The frame positions of the 58 data symbols, in order.
pub fn data_symbols() -> (out: [usize; 58])
    ensures
        forall|i: int| 0 <= i < 58 ==> out[i] == data_pos(i),
{
    let mut out = [0usize; 58];
    let mut idx: usize = 0;
    while idx < 58
        invariant
            idx <= 58,
            forall|i: int| 0 <= i < idx ==> out[i] == data_pos(i),
        decreases 58 - idx,
    {
        out[idx] = data_symbol_index(idx);
        idx = idx + 1;
    }
    out
}

/// The 3-bit value carried by data symbol `j` of a codeword.
pub open spec fn tone_bits(cw: Seq<u8>, j: int) -> int {
    4 * cw[3 * j] + 2 * cw[3 * j + 1] + cw[3 * j + 2]
}

/// The tone sent at frame position `k` for a codeword.
pub open spec fn frame_tone(cw: Seq<u8>, k: int) -> i32 {
    if k < 7 {
        costas_tone(k)
    } else if k < 36 {
        gray_tone(tone_bits(cw, k - 7))
    } else if k < 43 {
        costas_tone(k - 36)
    } else if k < 72 {
        gray_tone(tone_bits(cw, k - 14))
    } else {
        costas_tone(k - 72)
    }
}

/// Every data symbol of the codeword carries a 3-bit value.
pub open spec fn codeword_symbols_ok(cw: Seq<u8>) -> bool {
    &&& cw.len() >= 174
    &&& forall|j: int| 0 <= j < 58 ==> tone_bits(cw, j) < 8
}

/// The data symbols go out in order: a later data symbol is sent at a
/// later frame position.
pub proof fn lemma_data_symbols_in_order()
    ensures
        forall|i: int, j: int| 0 <= i < j < 58 ==> #[trigger] data_pos(i) < #[trigger] data_pos(j),
{
}

/// The sync symbols of every frame: positions 0 to 6, 36 to 42 and 72 to
/// 78 carry the Costas array 3 1 4 0 6 5 2, whatever the codeword.
pub proof fn lemma_sync_tones(cw: Seq<u8>)
    ensures
        forall|k: int| 0 <= k < 7 ==> #[trigger] frame_tone(cw, k) == seq![3i32, 1, 4, 0, 6, 5, 2][k],
        forall|k: int| 0 <= k < 7 ==> #[trigger] frame_tone(cw, k + 36) == seq![3i32, 1, 4, 0, 6, 5, 2][k],
        forall|k: int| 0 <= k < 7 ==> #[trigger] frame_tone(cw, k + 72) == seq![3i32, 1, 4, 0, 6, 5, 2][k],
{
}

/// The 3-bit value a data tone stands for: the Gray map `0 1 3 2 5 6 4 7`
/// read backwards.
pub open spec fn tone_value(t: i32) -> int {
    seq![0int, 1, 3, 2, 6, 4, 5, 7][t as int]
}

/// Every data tone of a frame gives back the three codeword bits it was
/// made from: data symbol `j` stands for the value whose binary digits,
/// most significant first, are bits `3j`, `3j + 1` and `3j + 2`.
pub proof fn lemma_data_tones_carry_codeword_bits(cw: Seq<u8>)
    requires
        cw.len() >= 174,
        forall|i: int| 0 <= i < 174 ==> #[trigger] cw[i] <= 1,
    ensures
        forall|j: int| 0 <= j < 58 ==> 0 <= #[trigger] frame_tone(cw, data_pos(j)) < 8,
        forall|j: int| 0 <= j < 58 ==> tone_value(#[trigger] frame_tone(cw, data_pos(j))) / 4 == cw[3 * j],
        forall|j: int| 0 <= j < 58 ==> (tone_value(#[trigger] frame_tone(cw, data_pos(j))) / 2) % 2 == cw[3 * j + 1],
        forall|j: int| 0 <= j < 58 ==> tone_value(#[trigger] frame_tone(cw, data_pos(j))) % 2 == cw[3 * j + 2],
{
    assert forall|j: int| 0 <= j < 58 implies {
        let t = #[trigger] frame_tone(cw, data_pos(j));
        &&& 0 <= t < 8
        &&& tone_value(t) / 4 == cw[3 * j]
        &&& (tone_value(t) / 2) % 2 == cw[3 * j + 1]
        &&& tone_value(t) % 2 == cw[3 * j + 2]
    } by {
        let b0 = cw[3 * j];
        let b1 = cw[3 * j + 1];
        let b2 = cw[3 * j + 2];
        assert(b0 <= 1 && b1 <= 1 && b2 <= 1);
        if j < 29 {
            assert(data_pos(j) - 7 == j);
        } else {
            assert(data_pos(j) - 14 == j);
        }
        assert(frame_tone(cw, data_pos(j)) == gray_tone(4 * b0 + 2 * b1 + b2));
    }
}

/// Maps a 174-bit codeword to the 79 tones of an FT8 frame.
pub fn get_ft8_tones_from_codeword(codeword: &[u8]) -> (itone: [i32; 79])
    requires
        codeword_symbols_ok(codeword@),
    ensures
        forall|k: int| 0 <= k < 79 ==> itone[k] == frame_tone(codeword@, k),
{
    let mut itone = [0i32; 79];
    let mut i: usize = 0;
    while i < 7
        invariant
            i <= 7,
            forall|k: int| 0 <= k < i ==> itone[k] == costas_tone(k),
            forall|k: int| 0 <= k < i ==> itone[36 + k] == costas_tone(k),
            forall|k: int| 0 <= k < i ==> itone[72 + k] == costas_tone(k),
        decreases 7 - i,
    {
        itone[i] = ICOS7[i];
        itone[36 + i] = ICOS7[i];
        itone[72 + i] = ICOS7[i];
        i = i + 1;
    }
    let mut j: usize = 0;
    while j < 58
        invariant
            codeword_symbols_ok(codeword@),
            j <= 58,
            forall|k: int| 0 <= k < 7 ==> itone[k] == costas_tone(k),
            forall|k: int| 0 <= k < 7 ==> itone[36 + k] == costas_tone(k),
            forall|k: int| 0 <= k < 7 ==> itone[72 + k] == costas_tone(k),
            forall|m: int| 0 <= m < j ==> itone[data_pos(m)] == gray_tone(tone_bits(codeword@, m)),
        decreases 58 - j,
    {
        let b = 3 * j;
        assert(tone_bits(codeword@, j as int) < 8);
        let indx = (codeword[b] as usize) * 4 + (codeword[b + 1] as usize) * 2 + codeword[b
            + 2] as usize;
        let k = data_symbol_index(j);
        itone[k] = GRAYMAP[indx];
        j = j + 1;
    }
    assert forall|k: int| 0 <= k < 79 implies itone[k] == frame_tone(codeword@, k) by {
        if 7 <= k < 36 {
            assert(data_pos(k - 7) == k);
        } else if 43 <= k < 72 {
            assert(data_pos(k - 14) == k);
        } else if 36 <= k < 43 {
            assert(itone[36 + (k - 36)] == costas_tone(k - 36));
        } else if 72 <= k {
            assert(itone[72 + (k - 72)] == costas_tone(k - 72));
        }
    }
    itone
}

/// Number of data symbols `k` not yet marked in `matched` (when given) on
/// which the two tone sequences agree, counting those from `lo` on.
#[verifier::opaque]
pub open spec fn match_count(a: Seq<i32>, b: Seq<i32>, matched: Option<Seq<bool>>, lo: int, n: int) -> nat
    decreases n,
{
    if n <= 0 {
        0
    } else {
        let k = n - 1;
        let skip = match matched {
            Some(m) => m[k],
            None => false,
        };
        match_count(a, b, matched, lo, k) + if !skip && a[k] == b[k] && k >= lo {
            1nat
        } else {
            0nat
        }
    }
}

/// One more symbol adds one to the count exactly when it is unmarked, agrees
/// and lies from `lo` on; the count never exceeds the symbols read.
pub proof fn lemma_match_count_step(a: Seq<i32>, b: Seq<i32>, matched: Option<Seq<bool>>, lo: int, n: int)
    requires
        0 <= n,
    ensures
        match_count(a, b, matched, lo, n + 1) == match_count(a, b, matched, lo, n) + if !(match matched {
            Some(m) => m[n],
            None => false,
        }) && a[n] == b[n] && n >= lo {
            1nat
        } else {
            0nat
        },
        match_count(a, b, matched, lo, n) <= n,
    decreases n,
{
    reveal(match_count);
    if n > 0 {
        lemma_match_count_step(a, b, matched, lo, n - 1);
    }
}

/// Counts agreeing data tones, skipping the marked ones; returns the count
/// over all 58 symbols and the count over the parity part (from symbol 25).
pub fn count_matches(idtone: &[i32; 58], itonedem: &[i32; 58], lmatched: Option<&[bool; 58]>) -> (r: (usize, usize))
    ensures
        ({
            let m = match lmatched {
                Some(x) => Some(x@),
                None => None,
            };
            r == (match_count(idtone@, itonedem@, m, 0, 58) as usize, match_count(
                idtone@,
                itonedem@,
                m,
                25,
                58,
            ) as usize)
        }),
{
    let ghost m = match lmatched {
        Some(x) => Some(x@),
        None => None,
    };
    let mut nmatch: usize = 0;
    let mut ncrcpaty: usize = 0;
    let mut k: usize = 0;
    proof {
        reveal(match_count);
    }
    while k < 58
        invariant
            k <= 58,
            m == match lmatched {
                Some(x) => Some(x@),
                None => None::<Seq<bool>>,
            },
            nmatch == match_count(idtone@, itonedem@, m, 0, k as int),
            ncrcpaty == match_count(idtone@, itonedem@, m, 25, k as int),
            nmatch <= k,
            ncrcpaty <= k,
        decreases 58 - k,
    {
        let skip = match lmatched {
            Some(matched) => matched[k],
            None => false,
        };
        proof {
            lemma_match_count_step(idtone@, itonedem@, m, 0, k as int);
            lemma_match_count_step(idtone@, itonedem@, m, 25, k as int);
        }
        if !skip && idtone[k] == itonedem[k] {
            nmatch = nmatch + 1;
            if k >= 25 {
                ncrcpaty = ncrcpaty + 1;
            }
        }
        k = k + 1;
    }
    (nmatch, ncrcpaty)
}

/// Adds the agreeing tones not yet marked to running counts and marks them.
pub fn extend_matches(
    idtone: &[i32; 58],
    itonedem: &[i32; 58],
    lmatched: &mut [bool; 58],
    nmatch: usize,
    ncrcpaty: usize,
) -> (r: (usize, usize))
    requires
        nmatch + 58 <= usize::MAX,
        ncrcpaty + 58 <= usize::MAX,
    ensures
        r.0 == nmatch + match_count(idtone@, itonedem@, Some(old(lmatched)@), 0, 58),
        r.1 == ncrcpaty + match_count(idtone@, itonedem@, Some(old(lmatched)@), 25, 58),
        forall|k: int|
            0 <= k < 58 ==> final(lmatched)[k] == (old(lmatched)[k] || idtone[k] == itonedem[k]),
{
    let m0a: [bool; 58] = *lmatched;
    let mut mk: [bool; 58] = *lmatched;
    let mut nm = nmatch;
    let mut nc = ncrcpaty;
    let mut k: usize = 0;
    proof {
        reveal(match_count);
    }
    while k < 58
        invariant
            k <= 58,
            nmatch + 58 <= usize::MAX,
            ncrcpaty + 58 <= usize::MAX,
            nm == nmatch + match_count(idtone@, itonedem@, Some(m0a@), 0, k as int),
            nc == ncrcpaty + match_count(idtone@, itonedem@, Some(m0a@), 25, k as int),
            match_count(idtone@, itonedem@, Some(m0a@), 0, k as int) <= k,
            match_count(idtone@, itonedem@, Some(m0a@), 25, k as int) <= k,
            forall|i: int| 0 <= i < k ==> mk@[i] == (m0a@[i] || idtone@[i] == itonedem@[i]),
            forall|i: int| k <= i < 58 ==> mk@[i] == m0a@[i],
        decreases 58 - k,
    {
        let ghost before = mk@;
        proof {
            lemma_match_count_step(idtone@, itonedem@, Some(m0a@), 0, k as int);
            lemma_match_count_step(idtone@, itonedem@, Some(m0a@), 25, k as int);
        }
        if !mk[k] && idtone[k] == itonedem[k] {
            nm = nm + 1;
            mk[k] = true;
            if k >= 25 {
                nc = nc + 1;
            }
        }
        assert(mk@[k as int] == (m0a@[k as int] || idtone@[k as int] == itonedem@[k as int]));
        assert forall|i: int| 0 <= i < k + 1 implies mk@[i] == (m0a@[i] || idtone@[i]
            == itonedem@[i]) by {
            if i < k {
                assert(mk@[i] == before[i]);
            }
        }
        k = k + 1;
    }
    *lmatched = mk;
    (nm, nc)
}

/// The parts of the reference message that a short-message match may use.
#[derive(Clone, Copy, Debug)]
pub enum RefPart {
    Parity,
    MyCall,
    Other,
}

/// Whether data symbol `j` belongs to the chosen part (all when none).
pub fn in_part(j: usize, part: Option<RefPart>) -> (r: bool)
    ensures
        r == match part {
            None => true,
            Some(RefPart::Parity) => j >= 26,
            Some(RefPart::MyCall) => j < 9,
            Some(RefPart::Other) => j < 9 || j >= 26,
        },
{
    match part {
        None => true,
        Some(RefPart::Parity) => j >= 26,
        Some(RefPart::MyCall) => j < 9,
        Some(RefPart::Other) => j < 9 || j >= 26,
    }
}

} // verus!
