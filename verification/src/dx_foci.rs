//! The frequencies at which the DX target has been heard, and the focus
//! frequencies chosen from them. Frequencies are in millihertz.
use vstd::prelude::*;
use crate::dx_context::{slots_between, slots_between_spec, seconds_of};

verus! {

/// Focus windows are 25 Hz either side of their centre.
pub const FOCUS_HALF_WIDTH_MHZ: i64 = 25_000;
/// At most this many focus frequencies are searched in one slot.
pub const MAX_FOCI: usize = 5;
/// The spacing of the streams of a multi-stream Fox.
pub const FOX_STREAM_SPACING_MHZ: i64 = 60_000;
/// The frequency at or below which the low-band preference ranks first.
pub const LOW_BAND_EDGE_MHZ: i64 = 1_000_000;
/// The largest frequency magnitude the memory holds.
pub const FREQ_LIMIT_MHZ: i64 = 1_000_000_000_000_000;

/// A remembered frequency of the target.
#[derive(Clone, Copy, Debug, PartialEq, Eq, Structural)]
pub struct FrequencyCandidate {
    pub freq_mhz: i64,
    pub confidence: u8,
    pub last_seen_nutc: u32,
    pub pinned: bool,
}

pub open spec fn abs_diff(a: i64, b: i64) -> int {
    if a >= b {
        a - b
    } else {
        b - a
    }
}

/// Two frequencies share one focus window.
pub open spec fn same_window(a: i64, b: i64) -> bool {
    abs_diff(a, b) <= 25_000
}

/// A time of day that names a real second of the day.
pub open spec fn valid_time(nutc: u32) -> bool {
    seconds_of(nutc) < 86400
}

/// What the memory keeps of every candidate: it lies in the passband and
/// was seen at a real time of day.
pub open spec fn candidates_ok(c: Seq<FrequencyCandidate>, nfa: i64, nfb: i64) -> bool {
    forall|i: int| 0 <= i < c.len() ==> nfa <= #[trigger] c[i].freq_mhz <= nfb && valid_time(
        c[i].last_seen_nutc,
    )
}

/// The first candidate in the window of `freq`.
pub open spec fn first_in_window(c: Seq<FrequencyCandidate>, freq: i64, n: int) -> Option<int>
    decreases n,
{
    if n <= 0 {
        None
    } else {
        match first_in_window(c, freq, n - 1) {
            Some(i) => Some(i),
            None => if same_window(c[n - 1].freq_mhz, freq) {
                Some(n - 1)
            } else {
                None
            },
        }
    }
}

pub(crate) proof fn lemma_first_in_window_found(c: Seq<FrequencyCandidate>, freq: i64, k: int, n: int)
    requires
        0 <= k <= n,
        first_in_window(c, freq, k) is Some,
    ensures
        first_in_window(c, freq, n) == first_in_window(c, freq, k),
    decreases n - k,
{
    if n > k {
        lemma_first_in_window_found(c, freq, k, n - 1);
    }
}

pub(crate) proof fn lemma_first_in_window_bounds(c: Seq<FrequencyCandidate>, freq: i64, n: int)
    ensures
        first_in_window(c, freq, n) matches Some(i) ==> 0 <= i < n && same_window(c[i].freq_mhz, freq),
    decreases n,
{
    if n > 0 {
        lemma_first_in_window_bounds(c, freq, n - 1);
    }
}

/// The candidates after hearing the target at `freq`: nothing outside the
/// passband; else the first candidate in the same window is refreshed
/// (moved to `freq` when the new confidence is higher, pinned if either
/// is), or a new candidate is added.
pub open spec fn remembered(
    c: Seq<FrequencyCandidate>,
    freq: i64,
    confidence: u8,
    nutc: u32,
    pinned: bool,
    nfa: i64,
    nfb: i64,
) -> Seq<FrequencyCandidate> {
    if !(nfa <= freq <= nfb) {
        c
    } else {
        match first_in_window(c, freq, c.len() as int) {
            Some(i) => {
                let e = c[i];
                c.update(
                    i,
                    FrequencyCandidate {
                        freq_mhz: if confidence > e.confidence {
                            freq
                        } else {
                            e.freq_mhz
                        },
                        confidence: if confidence > e.confidence {
                            confidence
                        } else {
                            e.confidence
                        },
                        last_seen_nutc: nutc,
                        pinned: e.pinned || pinned,
                    },
                )
            },
            None => c.push(FrequencyCandidate { freq_mhz: freq, confidence, last_seen_nutc: nutc, pinned }),
        }
    }
}

fn window_holds(a: i64, b: i64) -> (r: bool)
    ensures
        r == same_window(a, b),
{
    let d: i128 = if a >= b {
        (a as i128) - (b as i128)
    } else {
        (b as i128) - (a as i128)
    };
    d <= 25_000
}

pub fn remember_frequency(
    c: &mut Vec<FrequencyCandidate>,
    freq: i64,
    confidence: u8,
    nutc: u32,
    pinned: bool,
    nfa: i64,
    nfb: i64,
)
    ensures
        final(c)@ == remembered(old(c)@, freq, confidence, nutc, pinned, nfa, nfb),
{
    if !(nfa <= freq && freq <= nfb) {
        return;
    }
    let n = c.len();
    let mut i: usize = 0;
    while i < n
        invariant
            i <= n,
            n == c@.len(),
            c@ == old(c)@,
            nfa <= freq <= nfb,
            first_in_window(c@, freq, i as int) is None,
        decreases n - i,
    {
        if window_holds(c[i].freq_mhz, freq) {
            proof {
                assert(first_in_window(c@, freq, i + 1) == Some(i as int));
                lemma_first_in_window_found(c@, freq, i + 1, n as int);
            }
            let e = c[i];
            let updated = FrequencyCandidate {
                freq_mhz: if confidence > e.confidence {
                    freq
                } else {
                    e.freq_mhz
                },
                confidence: if confidence > e.confidence {
                    confidence
                } else {
                    e.confidence
                },
                last_seen_nutc: nutc,
                pinned: e.pinned || pinned,
            };
            proof {
                assert(first_in_window(old(c)@, freq, old(c)@.len() as int) == Some(i as int));
                assert(remembered(old(c)@, freq, confidence, nutc, pinned, nfa, nfb) == old(c)@.update(
                    i as int,
                    updated,
                ));
            }
            c.set(i, updated);
            return;
        }
        i = i + 1;
    }
    c.push(FrequencyCandidate { freq_mhz: freq, confidence, last_seen_nutc: nutc, pinned });
}

/// A candidate survives aging when pinned or heard within 16 slots.
pub open spec fn survives(x: FrequencyCandidate, nutc: u32) -> bool {
    x.pinned || slots_between_spec(x.last_seen_nutc, nutc) <= 16
}

/// The candidates that survive aging, in order.
pub open spec fn aged(c: Seq<FrequencyCandidate>, nutc: u32) -> Seq<FrequencyCandidate>
    decreases c.len(),
{
    if c.len() == 0 {
        c
    } else if survives(c.last(), nutc) {
        aged(c.drop_last(), nutc).push(c.last())
    } else {
        aged(c.drop_last(), nutc)
    }
}

pub(crate) proof fn lemma_aged_keeps(c: Seq<FrequencyCandidate>, nutc: u32)
    ensures
        forall|i: int| 0 <= i < aged(c, nutc).len() ==> c.contains(#[trigger] aged(c, nutc)[i]),
        forall|i: int| 0 <= i < c.len() && #[trigger] c[i].pinned ==> aged(c, nutc).contains(c[i]),
    decreases c.len(),
{
    if c.len() > 0 {
        lemma_aged_keeps(c.drop_last(), nutc);
        let a = aged(c, nutc);
        let p = aged(c.drop_last(), nutc);
        assert forall|i: int| 0 <= i < a.len() implies c.contains(#[trigger] a[i]) by {
            if i < p.len() {
                assert(p.contains(p[i]));
                let k = choose|k: int| 0 <= k < c.drop_last().len() && c.drop_last()[k] == p[i];
                assert(c[k] == a[i]);
            } else {
                assert(c[c.len() - 1] == a[i]);
            }
        }
        assert forall|i: int| 0 <= i < c.len() && #[trigger] c[i].pinned implies a.contains(c[i]) by {
            if i < c.len() - 1 {
                assert(c.drop_last()[i] == c[i]);
                assert(p.contains(c[i]));
                let k = choose|k: int| 0 <= k < p.len() && p[k] == c[i];
                assert(a[k] == c[i]);
            } else {
                assert(a[a.len() - 1] == c[i]);
            }
        }
    }
}

/// Drops the candidates not heard within 16 slots, unless pinned.
pub fn age_frequencies(c: &mut Vec<FrequencyCandidate>, nutc: u32)
    requires
        forall|i: int| 0 <= i < old(c)@.len() ==> valid_time(#[trigger] old(c)@[i].last_seen_nutc),
        valid_time(nutc),
    ensures
        final(c)@ == aged(old(c)@, nutc),
{
    let mut kept: Vec<FrequencyCandidate> = Vec::new();
    let mut i: usize = 0;
    while i < c.len()
        invariant
            i <= c@.len(),
            c@ == old(c)@,
            valid_time(nutc),
            forall|k: int| 0 <= k < c@.len() ==> valid_time(#[trigger] c@[k].last_seen_nutc),
            kept@ == aged(c@.subrange(0, i as int), nutc),
        decreases c@.len() - i,
    {
        proof {
            assert(c@.subrange(0, i + 1).drop_last() =~= c@.subrange(0, i as int));
            assert(c@.subrange(0, i + 1).last() == c@[i as int]);
        }
        let x = c[i];
        assert(valid_time(x.last_seen_nutc));
        if x.pinned || slots_between(x.last_seen_nutc, nutc) <= 16 {
            kept.push(x);
        }
        i = i + 1;
    }
    proof {
        assert(c@.subrange(0, c@.len() as int) =~= c@);
    }
    *c = kept;
}

/// The low-band preference: frequencies up to 1000 Hz rank first.
pub open spec fn band_rank(low_band_prior: bool, f: i64) -> int {
    if low_band_prior && f <= 1_000_000 {
        0
    } else {
        1
    }
}

/// `a` sorts no later than `b`: higher confidence first, then the low-band
/// preference, then the lower frequency.
pub open spec fn precedes(lbp: bool, a: FrequencyCandidate, b: FrequencyCandidate) -> bool {
    a.confidence > b.confidence || (a.confidence == b.confidence && (band_rank(lbp, a.freq_mhz)
        < band_rank(lbp, b.freq_mhz) || (band_rank(lbp, a.freq_mhz) == band_rank(lbp, b.freq_mhz)
        && a.freq_mhz <= b.freq_mhz)))
}

/// A frequency outside the windows of all foci chosen so far.
pub open spec fn eligible(f: i64, picks: Seq<i64>) -> bool {
    forall|j: int| 0 <= j < picks.len() ==> !same_window(f, #[trigger] picks[j])
}

/// `f` is the frequency of the first candidate, in sort order, outside the
/// windows of `picks`.
#[verifier::opaque]
pub open spec fn is_next_focus(c: Seq<FrequencyCandidate>, lbp: bool, picks: Seq<i64>, f: i64) -> bool {
    exists|i: int|
        0 <= i < c.len() && eligible(c[i].freq_mhz, picks) && c[i].freq_mhz == f && (forall|k: int|
            0 <= k < c.len() && eligible(c[k].freq_mhz, picks) ==> precedes(lbp, c[i], #[trigger] c[k]))
}

pub open spec fn none_eligible(c: Seq<FrequencyCandidate>, picks: Seq<i64>) -> bool {
    forall|k: int| 0 <= k < c.len() ==> !eligible(#[trigger] c[k].freq_mhz, picks)
}

/// The foci of the candidates: taken in sort order, each outside the
/// windows of those taken before, at most five.
pub open spec fn is_greedy_foci(c: Seq<FrequencyCandidate>, lbp: bool, r: Seq<i64>) -> bool {
    &&& r.len() <= 5
    &&& forall|k: int| 0 <= k < r.len() ==> is_next_focus(c, lbp, r.subrange(0, k), #[trigger] r[k])
    &&& (r.len() == 5 || none_eligible(c, r))
}

fn precedes_exec(lbp: bool, a: FrequencyCandidate, b: FrequencyCandidate) -> (r: bool)
    ensures
        r == precedes(lbp, a, b),
{
    let ra: u8 = if lbp && a.freq_mhz <= 1_000_000 {
        0
    } else {
        1
    };
    let rb: u8 = if lbp && b.freq_mhz <= 1_000_000 {
        0
    } else {
        1
    };
    a.confidence > b.confidence || (a.confidence == b.confidence && (ra < rb || (ra == rb
        && a.freq_mhz <= b.freq_mhz)))
}

fn eligible_exec(f: i64, picks: &Vec<i64>) -> (r: bool)
    ensures
        r == eligible(f, picks@),
{
    let mut j: usize = 0;
    while j < picks.len()
        invariant
            j <= picks@.len(),
            forall|t: int| 0 <= t < j ==> !same_window(f, #[trigger] picks@[t]),
        decreases picks@.len() - j,
    {
        if window_holds(f, picks[j]) {
            assert(same_window(f, picks@[j as int]));
            return false;
        }
        j = j + 1;
    }
    true
}

/// The first candidate in sort order that is outside the windows of
/// `picks`, if any.
fn next_focus(c: &Vec<FrequencyCandidate>, lbp: bool, picks: &Vec<i64>) -> (r: Option<usize>)
    ensures
        match r {
            Some(b) => b < c@.len() && eligible(c@[b as int].freq_mhz, picks@) && forall|k: int|
                0 <= k < c@.len() && eligible(c@[k].freq_mhz, picks@) ==> precedes(
                    lbp,
                    c@[b as int],
                    #[trigger] c@[k],
                ),
            None => none_eligible(c@, picks@),
        },
{
    let mut best: Option<usize> = None;
    let mut i: usize = 0;
    while i < c.len()
        invariant
            i <= c@.len(),
            match best {
                Some(b) => b < i && eligible(c@[b as int].freq_mhz, picks@) && forall|k: int|
                    0 <= k < i && eligible(c@[k].freq_mhz, picks@) ==> precedes(
                        lbp,
                        c@[b as int],
                        #[trigger] c@[k],
                    ),
                None => forall|k: int| 0 <= k < i ==> !eligible(#[trigger] c@[k].freq_mhz, picks@),
            },
        decreases c@.len() - i,
    {
        if eligible_exec(c[i].freq_mhz, picks) {
            match best {
                Some(b) => {
                    if !precedes_exec(lbp, c[b], c[i]) {
                        best = Some(i);
                    }
                },
                None => {
                    best = Some(i);
                },
            }
        }
        i = i + 1;
    }
    best
}

/// The foci chosen from the candidates, in the order they are searched.
pub fn greedy_foci(c: &Vec<FrequencyCandidate>, lbp: bool) -> (r: Vec<i64>)
    ensures
        is_greedy_foci(c@, lbp, r@),
{
    let mut picks: Vec<i64> = Vec::new();
    let mut done = false;
    while picks.len() < 5 && !done
        invariant
            picks@.len() <= 5,
            forall|k: int| 0 <= k < picks@.len() ==> is_next_focus(c@, lbp, picks@.subrange(0, k), #[trigger] picks@[k]),
            done ==> none_eligible(c@, picks@),
        decreases 5 - picks@.len() + if done { 0int } else { 1int },
    {
        match next_focus(c, lbp, &picks) {
            Some(b) => {
                let ghost before = picks@;
                let f = c[b].freq_mhz;
                picks.push(f);
                proof {
                    reveal(is_next_focus);
                    assert(picks@.subrange(0, before.len() as int) =~= before);
                    assert(is_next_focus(c@, lbp, before, f));
                    assert forall|k: int| 0 <= k < picks@.len() implies is_next_focus(c@, lbp, picks@.subrange(0, k), #[trigger] picks@[k]) by {
                        if k < before.len() {
                            assert(picks@.subrange(0, k) =~= before.subrange(0, k));
                        }
                    }
                }
            },
            None => {
                done = true;
            },
        }
    }
    picks
}

/// The choice of foci depends only on which candidates there are, not on
/// the order in which they were heard.
pub proof fn lemma_foci_ignore_order(
    c1: Seq<FrequencyCandidate>,
    c2: Seq<FrequencyCandidate>,
    lbp: bool,
    r1: Seq<i64>,
    r2: Seq<i64>,
)
    requires
        forall|x: FrequencyCandidate| c1.contains(x) <==> c2.contains(x),
        is_greedy_foci(c1, lbp, r1),
        is_greedy_foci(c2, lbp, r2),
    ensures
        r1 == r2,
{
    reveal(is_next_focus);
    let n = if r1.len() < r2.len() {
        r1.len()
    } else {
        r2.len()
    };
    assert forall|k: int| 0 <= k < n implies r1[k] == r2[k] by {
        lemma_prefix_agrees(c1, c2, lbp, r1, r2, k);
    }
    if r1.len() < r2.len() {
        assert(r1.subrange(0, r1.len() as int) =~= r2.subrange(0, r1.len() as int));
        assert(r1 =~= r2.subrange(0, r1.len() as int));
        assert(is_next_focus(c2, lbp, r2.subrange(0, r1.len() as int), r2[r1.len() as int]));
        let i = choose|i: int|
            0 <= i < c2.len() && eligible(c2[i].freq_mhz, r1) && c2[i].freq_mhz == r2[r1.len() as int]
                && (forall|k: int|
                0 <= k < c2.len() && eligible(c2[k].freq_mhz, r1) ==> precedes(lbp, c2[i], #[trigger] c2[k]));
        assert(c2.contains(c2[i]));
        let j = choose|j: int| 0 <= j < c1.len() && c1[j] == c2[i];
        assert(!eligible(c1[j].freq_mhz, r1));
    } else if r2.len() < r1.len() {
        assert(r2 =~= r1.subrange(0, r2.len() as int));
        assert(is_next_focus(c1, lbp, r1.subrange(0, r2.len() as int), r1[r2.len() as int]));
        let i = choose|i: int|
            0 <= i < c1.len() && eligible(c1[i].freq_mhz, r2) && c1[i].freq_mhz == r1[r2.len() as int]
                && (forall|k: int|
                0 <= k < c1.len() && eligible(c1[k].freq_mhz, r2) ==> precedes(lbp, c1[i], #[trigger] c1[k]));
        assert(c1.contains(c1[i]));
        let j = choose|j: int| 0 <= j < c2.len() && c2[j] == c1[i];
        assert(!eligible(c2[j].freq_mhz, r2));
    } else {
        assert(r1 =~= r2);
    }
}

/// With the same candidates and the same foci so far, the next focus is
/// the same.
pub proof fn lemma_next_focus_unique(
    c1: Seq<FrequencyCandidate>,
    c2: Seq<FrequencyCandidate>,
    lbp: bool,
    picks: Seq<i64>,
    f1: i64,
    f2: i64,
)
    requires
        forall|x: FrequencyCandidate| c1.contains(x) <==> c2.contains(x),
        is_next_focus(c1, lbp, picks, f1),
        is_next_focus(c2, lbp, picks, f2),
    ensures
        f1 == f2,
{
    reveal(is_next_focus);
    let i1 = choose|i: int|
        0 <= i < c1.len() && eligible(c1[i].freq_mhz, picks) && c1[i].freq_mhz == f1 && (forall|t: int|
            0 <= t < c1.len() && eligible(c1[t].freq_mhz, picks) ==> precedes(lbp, c1[i], #[trigger] c1[t]));
    let i2 = choose|i: int|
        0 <= i < c2.len() && eligible(c2[i].freq_mhz, picks) && c2[i].freq_mhz == f2 && (forall|t: int|
            0 <= t < c2.len() && eligible(c2[t].freq_mhz, picks) ==> precedes(lbp, c2[i], #[trigger] c2[t]));
    assert(c1.contains(c1[i1]));
    assert(c2.contains(c2[i2]));
    let j2 = choose|j: int| 0 <= j < c2.len() && c2[j] == c1[i1];
    let j1 = choose|j: int| 0 <= j < c1.len() && c1[j] == c2[i2];
    assert(precedes(lbp, c2[i2], c2[j2]));
    assert(precedes(lbp, c1[i1], c1[j1]));
}

proof fn lemma_prefix_agrees(
    c1: Seq<FrequencyCandidate>,
    c2: Seq<FrequencyCandidate>,
    lbp: bool,
    r1: Seq<i64>,
    r2: Seq<i64>,
    k: int,
)
    requires
        forall|x: FrequencyCandidate| c1.contains(x) <==> c2.contains(x),
        is_greedy_foci(c1, lbp, r1),
        is_greedy_foci(c2, lbp, r2),
        0 <= k < r1.len(),
        k < r2.len(),
    ensures
        r1[k] == r2[k],
        r1.subrange(0, k + 1) == r2.subrange(0, k + 1),
    decreases k,
{
    if k > 0 {
        lemma_prefix_agrees(c1, c2, lbp, r1, r2, k - 1);
        assert(r1.subrange(0, k) == r2.subrange(0, k));
    } else {
        assert(r1.subrange(0, 0) =~= r2.subrange(0, 0));
    }
    assert(is_next_focus(c1, lbp, r1.subrange(0, k), r1[k]));
    assert(is_next_focus(c2, lbp, r2.subrange(0, k), r2[k]));
    lemma_next_focus_unique(c1, c2, lbp, r1.subrange(0, k), r1[k], r2[k]);
    assert(r1.subrange(0, k + 1) =~= r1.subrange(0, k).push(r1[k]));
    assert(r2.subrange(0, k + 1) =~= r2.subrange(0, k).push(r2[k]));
}

/// The lowest frequency of the candidates.
pub open spec fn lowest(c: Seq<FrequencyCandidate>) -> i64
    decreases c.len(),
{
    if c.len() <= 1 {
        c[0].freq_mhz
    } else if c.last().freq_mhz < lowest(c.drop_last()) {
        c.last().freq_mhz
    } else {
        lowest(c.drop_last())
    }
}

/// The number of 60 Hz grid points from `base` whose focus window still
/// reaches the passband top, counting from step `k` and at most five.
pub open spec fn grid_len_from(base: i64, nfb: i64, k: int) -> int
    decreases 5 - k,
{
    if k >= 5 {
        5
    } else if base + 60_000 * k - 25_000 > nfb {
        k
    } else {
        grid_len_from(base, nfb, k + 1)
    }
}

/// The Fox grid of a Hound: once two or more Fox streams are known, five
/// foci 60 Hz apart from the lowest, cut where their windows leave the
/// passband.
pub open spec fn fox_grid(c: Seq<FrequencyCandidate>, hound: bool, nfb: i64) -> Option<Seq<i64>> {
    if !hound || c.len() < 2 {
        None
    } else {
        let base = lowest(c);
        let m = grid_len_from(base, nfb, 0);
        if m == 0 {
            None
        } else {
            Some(Seq::new(m as nat, |k: int| (base + 60_000 * k) as i64))
        }
    }
}

pub(crate) proof fn lemma_lowest_in_range(c: Seq<FrequencyCandidate>, nfa: i64, nfb: i64)
    requires
        c.len() >= 1,
        candidates_ok(c, nfa, nfb),
    ensures
        nfa <= lowest(c) <= nfb,
    decreases c.len(),
{
    if c.len() > 1 {
        assert(candidates_ok(c.drop_last(), nfa, nfb)) by {
            assert forall|i: int| 0 <= i < c.drop_last().len() implies nfa <= #[trigger] c.drop_last()[i].freq_mhz <= nfb && valid_time(c.drop_last()[i].last_seen_nutc) by {
                assert(c.drop_last()[i] == c[i]);
            }
        }
        lemma_lowest_in_range(c.drop_last(), nfa, nfb);
        assert(c[c.len() - 1] == c.last());
    } else {
        assert(c[0].freq_mhz == lowest(c));
    }
}

pub fn fox_multistream_foci(c: &Vec<FrequencyCandidate>, hound: bool, nfa: i64, nfb: i64) -> (r: Option<Vec<i64>>)
    requires
        candidates_ok(c@, nfa, nfb),
        -FREQ_LIMIT_MHZ <= nfa,
        nfb <= FREQ_LIMIT_MHZ,
    ensures
        match r {
            Some(g) => fox_grid(c@, hound, nfb) == Some(g@),
            None => fox_grid(c@, hound, nfb) is None,
        },
{
    if !hound || c.len() < 2 {
        return None;
    }
    let mut base = c[0].freq_mhz;
    let mut i: usize = 1;
    proof {
        assert(c@.subrange(0, 1).len() == 1);
        assert(lowest(c@.subrange(0, 1)) == c@[0].freq_mhz);
    }
    while i < c.len()
        invariant
            1 <= i <= c@.len(),
            base == lowest(c@.subrange(0, i as int)),
        decreases c@.len() - i,
    {
        proof {
            assert(c@.subrange(0, i + 1).drop_last() =~= c@.subrange(0, i as int));
            assert(c@.subrange(0, i + 1).last() == c@[i as int]);
        }
        if c[i].freq_mhz < base {
            base = c[i].freq_mhz;
        }
        i = i + 1;
    }
    proof {
        assert(c@.subrange(0, c@.len() as int) =~= c@);
        lemma_lowest_in_range(c@, nfa, nfb);
    }
    let mut foci: Vec<i64> = Vec::new();
    let mut step: usize = 0;
    let mut stopped = false;
    while step < 5 && !stopped
        invariant
            step <= 5,
            base == lowest(c@),
            nfa <= base <= nfb,
            -FREQ_LIMIT_MHZ <= nfa,
            nfb <= FREQ_LIMIT_MHZ,
            foci@.len() == step,
            forall|k: int| 0 <= k < step ==> #[trigger] foci@[k] == base + 60_000 * k,
            stopped ==> grid_len_from(base, nfb, 0) == step,
            !stopped ==> grid_len_from(base, nfb, 0) == grid_len_from(base, nfb, step as int),
        decreases 5 - step + if stopped { 0int } else { 1int },
    {
        let freq: i64 = base + 60_000 * (step as i64);
        if freq - 25_000 > nfb {
            stopped = true;
        } else {
            foci.push(freq);
            step = step + 1;
        }
    }
    if foci.len() == 0 {
        None
    } else {
        proof {
            assert(foci@ =~= Seq::new(grid_len_from(base, nfb, 0) as nat, |k: int| (base + 60_000 * k) as i64));
        }
        Some(foci)
    }
}


proof fn lemma_grid_len_bound(base: i64, nfb: i64, k: int)
    requires
        0 <= k <= 5,
    ensures
        k <= grid_len_from(base, nfb, k) <= 5,
    decreases 5 - k,
{
    if k < 5 && base + 60_000 * k - 25_000 <= nfb {
        lemma_grid_len_bound(base, nfb, k + 1);
    }
}

proof fn lemma_grid_points_reach(base: i64, nfb: i64, k0: int, k: int)
    requires
        0 <= k0 <= k < grid_len_from(base, nfb, k0),
    ensures
        base + 60_000 * k - 25_000 <= nfb,
    decreases 5 - k0,
{
    if k0 < 5 && base + 60_000 * k0 - 25_000 <= nfb && k > k0 {
        lemma_grid_points_reach(base, nfb, k0 + 1, k);
    }
}

/// The foci a store picks, whatever it heard: at most five; for a Hound
/// that knows two Fox streams, the 60 Hz grid from the lowest of them; else
/// frequencies inside the passband, no two within one 25 Hz window.
pub proof fn lemma_foci_shape(c: Seq<FrequencyCandidate>, hound: bool, nfa: i64, nfb: i64, lbp: bool, r: Seq<i64>)
    requires
        candidates_ok(c, nfa, nfb),
        -FREQ_LIMIT_MHZ <= nfa,
        nfb <= FREQ_LIMIT_MHZ,
        match fox_grid(c, hound, nfb) {
            Some(g) => r == g,
            None => is_greedy_foci(c, lbp, r),
        },
    ensures
        r.len() <= 5,
        fox_grid(c, hound, nfb) is Some ==> r.len() >= 1 && forall|k: int| 0 <= k < r.len() ==> #[trigger] r[k] == lowest(c) + 60_000 * k,
        fox_grid(c, hound, nfb) is None ==> {
            &&& forall|k: int| 0 <= k < r.len() ==> nfa <= #[trigger] r[k] <= nfb
            &&& forall|i: int, j: int| 0 <= i < j < r.len() ==> !same_window(#[trigger] r[i], #[trigger] r[j])
        },
{
    match fox_grid(c, hound, nfb) {
        Some(g) => {
            let base = lowest(c);
            lemma_grid_len_bound(base, nfb, 0);
            lemma_lowest_in_range(c, nfa, nfb);
            assert forall|k: int| 0 <= k < r.len() implies #[trigger] r[k] == lowest(c) + 60_000 * k by {
                lemma_grid_points_reach(base, nfb, 0, k);
            }
        },
        None => {
            reveal(is_next_focus);
            assert forall|k: int| 0 <= k < r.len() implies nfa <= #[trigger] r[k] <= nfb by {
                assert(is_next_focus(c, lbp, r.subrange(0, k), r[k]));
                let i = choose|i: int| 0 <= i < c.len() && eligible(c[i].freq_mhz, r.subrange(0, k)) && c[i].freq_mhz == r[k] && (forall|q: int|
                    0 <= q < c.len() && eligible(c[q].freq_mhz, r.subrange(0, k)) ==> precedes(lbp, c[i], #[trigger] c[q]));
                assert(nfa <= c[i].freq_mhz <= nfb);
            }
            assert forall|i: int, j: int| 0 <= i < j < r.len() implies !same_window(#[trigger] r[i], #[trigger] r[j]) by {
                assert(is_next_focus(c, lbp, r.subrange(0, j), r[j]));
                let w = choose|w: int| 0 <= w < c.len() && eligible(c[w].freq_mhz, r.subrange(0, j)) && c[w].freq_mhz == r[j] && (forall|q: int|
                    0 <= q < c.len() && eligible(c[q].freq_mhz, r.subrange(0, j)) ==> precedes(lbp, c[w], #[trigger] c[q]));
                assert(r.subrange(0, j)[i] == r[i]);
                assert(!same_window(r[j], r[i]));
            }
        },
    }
}

} // verus!
