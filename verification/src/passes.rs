//! The plan of the decoding passes over one slot: how many passes, which
//! ones subtract decoded signals, how the band is cut among threads and in
//! which order its sections are searched.
use vstd::prelude::*;

verus! {

/// Whether a pass subtracts the signals it decodes.
#[derive(Clone, Copy, Debug, PartialEq, Eq, Structural)]
pub enum SubtractPolicy {
    Enabled,
    Disabled,
}

/// The settings the pass plan reads.
#[derive(Clone, Copy, Debug, Default, PartialEq, Eq)]
pub struct PassConfig {
    /// The SWL (listen-only) mode.
    pub swl: bool,
    pub nft8cycles: i32,
    pub nft8swlcycles: i32,
}

/// Three passes per decoding cycle, for one to three cycles; any other
/// setting means one cycle.
pub open spec fn passes_for(cycles: i32) -> usize {
    if cycles == 2 {
        6
    } else if cycles == 3 {
        9
    } else {
        3
    }
}

pub fn npass(config: &PassConfig) -> (r: usize)
    ensures
        r == passes_for(
            if config.swl {
                config.nft8swlcycles
            } else {
                config.nft8cycles
            },
        ),
{
    let cycles = if config.swl {
        config.nft8swlcycles
    } else {
        config.nft8cycles
    };
    match cycles {
        1 => 3,
        2 => 6,
        3 => 9,
        _ => 3,
    }
}

/// Passes after the fifth never subtract, nor does the third of a
/// three-pass plan outside SWL mode.
pub fn subtract_policy(config: &PassConfig, ipass: usize, npass: usize) -> (r: SubtractPolicy)
    ensures
        r == if ipass > 5 || (ipass == 3 && npass == 3 && !config.swl) {
            SubtractPolicy::Disabled
        } else {
            SubtractPolicy::Enabled
        },
{
    if ipass > 5 || (ipass == 3 && npass == 3 && !config.swl) {
        SubtractPolicy::Disabled
    } else {
        SubtractPolicy::Enabled
    }
}

/// The sync metric of a pass.
#[derive(Clone, Copy, Debug, PartialEq, Eq, Structural)]
pub enum SyncMetricMode {
    Amplitude,
    Power,
    AbsSum,
}

impl SyncMetricMode {
    /// The metrics cycle amplitude, power, absolute sum over passes 1..=9;
    /// any other pass uses amplitude.
    pub fn for_ipass(ipass: usize) -> (r: SyncMetricMode)
        ensures
            r == if 1 <= ipass <= 9 && ipass % 3 == 2 {
                SyncMetricMode::Power
            } else if 1 <= ipass <= 9 && ipass % 3 == 0 {
                SyncMetricMode::AbsSum
            } else {
                SyncMetricMode::Amplitude
            },
    {
        match ipass {
            1 | 4 | 7 => SyncMetricMode::Amplitude,
            2 | 5 | 8 => SyncMetricMode::Power,
            3 | 6 | 9 => SyncMetricMode::AbsSum,
            _ => SyncMetricMode::Amplitude,
        }
    }
}

/// Which half-minute interval a slot starts: at :00 or :30, at :15 or :45,
/// or neither.
#[derive(Clone, Copy, Debug, PartialEq, Eq, Structural)]
pub enum IntervalKind {
    Even,
    Odd,
    Other,
}

impl IntervalKind {
    pub fn from_timestamp(timestamp: &crate::dx_context::SlotTimestamp) -> (r: IntervalKind)
        ensures
            r == if timestamp.nutc % 100 == 0 || timestamp.nutc % 100 == 30 {
                IntervalKind::Even
            } else if timestamp.nutc % 100 == 15 || timestamp.nutc % 100 == 45 {
                IntervalKind::Odd
            } else {
                IntervalKind::Other
            },
    {
        match timestamp.nutc() % 100 {
            0 | 30 => IntervalKind::Even,
            15 | 45 => IntervalKind::Odd,
            _ => IntervalKind::Other,
        }
    }
}

/// The settings that bound the decoding threads and the band.
#[derive(Clone, Copy, Debug, Default, PartialEq, Eq)]
pub struct BandConfig {
    /// Threads the user asked for; 0 lets the core count decide.
    pub jtdx_threads: usize,
    /// Decode only around the QSO frequency.
    pub filter: bool,
    /// A repeated decode of the QSO frequency.
    pub nagain: bool,
    pub lhound: bool,
    /// Band edges and QSO frequency, in whole hertz.
    pub nfa: i32,
    pub nfb: i32,
    pub nfqso: i32,
}

/// The thread count for `numcores` cores: one core less for up to four
/// cores, then more left free as cores grow, at most 24; a user setting of
/// 1..=24 capped by the cores; 25 or more means one thread. Narrow bands
/// and repeated decodes use fewer threads.
pub open spec fn threads_for(config: BandConfig, numcores: usize) -> usize {
    let nuserthr = config.jtdx_threads;
    let base: int = if nuserthr == 0 {
        if numcores <= 1 {
            1
        } else if numcores <= 4 {
            numcores - 1
        } else if numcores <= 8 {
            numcores - 2
        } else if numcores <= 15 {
            numcores - 3
        } else if numcores <= 20 {
            numcores - 4
        } else if numcores <= 29 {
            numcores - 5
        } else {
            24
        }
    } else if nuserthr < 25 {
        if numcores >= nuserthr {
            nuserthr as int
        } else {
            numcores as int
        }
    } else {
        1
    };
    let f: int = if config.filter && base > 8 {
        8
    } else {
        base
    };
    let a: int = if config.nagain && f > 4 {
        4
    } else {
        f
    };
    if a < 1 {
        1
    } else {
        a as usize
    }
}

pub fn jtdx_numthreads(config: &BandConfig, numcores: usize) -> (r: usize)
    ensures
        r == threads_for(*config, numcores),
        1 <= r <= 24,
{
    let nuserthr = config.jtdx_threads;
    let mut numthreads: usize = if nuserthr == 0 {
        if numcores <= 1 {
            1
        } else if numcores <= 4 {
            numcores - 1
        } else if numcores <= 8 {
            numcores - 2
        } else if numcores <= 15 {
            numcores - 3
        } else if numcores <= 20 {
            numcores - 4
        } else if numcores <= 29 {
            numcores - 5
        } else {
            24
        }
    } else if nuserthr < 25 {
        if numcores >= nuserthr {
            nuserthr
        } else {
            numcores
        }
    } else {
        1
    };
    if config.filter && numthreads > 8 {
        numthreads = 8;
    }
    if config.nagain && numthreads > 4 {
        numthreads = 4;
    }
    if numthreads < 1 {
        1
    } else {
        numthreads
    }
}

/// The band searched: the configured band, narrowed around the QSO
/// frequency when it lies inside it, to ±290 Hz (Hound) or ±60 Hz with
/// the filter, and then to ±25 Hz for a repeated decode.
pub open spec fn active_band(config: BandConfig) -> (int, int) {
    let nfa0 = config.nfa as int;
    let nfb0 = config.nfb as int;
    let q = config.nfqso as int;
    let hw: int = if config.lhound {
        290
    } else {
        60
    };
    let (nfa1, nfb1) = if config.filter && nfa0 <= q <= nfb0 {
        (
            if nfa0 > q - hw {
                nfa0
            } else {
                q - hw
            },
            if nfb0 < q + hw {
                nfb0
            } else {
                q + hw
            },
        )
    } else {
        (nfa0, nfb0)
    };
    if config.nagain && nfa1 <= q <= nfb1 {
        (
            if nfa1 > q - 25 {
                nfa1
            } else {
                q - 25
            },
            if nfb1 < q + 25 {
                nfb1
            } else {
                q + 25
            },
        )
    } else {
        (nfa1, nfb1)
    }
}

/// The narrowing stays in `i32`: when the QSO frequency lies in the band
/// and a narrowing applies, it is at least its half-width (±290 or ±60 Hz
/// with the filter, else ±25 Hz) away from the ends of `i32`.
pub open spec fn narrowing_fits(config: BandConfig) -> bool {
    let margin: int = if config.filter {
        if config.lhound {
            290
        } else {
            60
        }
    } else {
        25
    };
    (config.filter || config.nagain) && config.nfa <= config.nfqso <= config.nfb ==> i32::MIN + margin
        <= config.nfqso <= i32::MAX - margin
}

pub fn active_jtdx_decode_band(config: &BandConfig) -> (r: (i32, i32))
    requires
        narrowing_fits(*config),
    ensures
        (r.0 as int, r.1 as int) == active_band(*config),
{
    let mut nfa = config.nfa;
    let mut nfb = config.nfb;
    let nfqso = config.nfqso;
    if config.filter && nfqso >= nfa && nfqso <= nfb {
        let half_width: i32 = if config.lhound {
            290
        } else {
            60
        };
        if nfa < nfqso - half_width {
            nfa = nfqso - half_width;
        }
        if nfb > nfqso + half_width {
            nfb = nfqso + half_width;
        }
    }
    if config.nagain && nfqso >= nfa && nfqso <= nfb {
        if nfa < nfqso - 25 {
            nfa = nfqso - 25;
        }
        if nfb > nfqso + 25 {
            nfb = nfqso + 25;
        }
    }
    (nfa, nfb)
}

/// The `k`-th section searched when the band is cut into `n` sections:
/// the middle section(s) first, then outward, alternating low and high.
pub open spec fn section_at(n: int, k: int) -> int {
    if n <= 3 {
        k
    } else if n % 2 == 0 {
        if k % 2 == 0 {
            n / 2 - 1 - k / 2
        } else {
            n / 2 + k / 2
        }
    } else {
        if k % 2 == 1 {
            n / 2 - (k + 1) / 2
        } else {
            n / 2 + k / 2
        }
    }
}

pub fn jtdx_section_order(numthreads: usize) -> (order: Vec<usize>)
    ensures
        order@.len() == numthreads,
        forall|k: int| 0 <= k < numthreads ==> #[trigger] order@[k] == section_at(numthreads as int, k),
{
    let mut order: Vec<usize> = Vec::new();
    if numthreads <= 3 {
        let mut i: usize = 0;
        while i < numthreads
            invariant
                i <= numthreads <= 3,
                order@.len() == i,
                forall|k: int| 0 <= k < i ==> #[trigger] order@[k] == k,
            decreases numthreads - i,
        {
            order.push(i);
            i = i + 1;
        }
        return order;
    }
    if numthreads % 2 == 0 {
        let left = numthreads / 2 - 1;
        let right = numthreads / 2;
        order.push(left);
        order.push(right);
        let mut offset: usize = 1;
        while offset <= left
            invariant
                numthreads >= 4,
                numthreads % 2 == 0,
                left == numthreads / 2 - 1,
                right == numthreads / 2,
                1 <= offset <= left + 1,
                order@.len() == 2 * offset,
                forall|k: int| 0 <= k < 2 * offset ==> #[trigger] order@[k] == section_at(
                    numthreads as int,
                    k,
                ),
            decreases left + 1 - offset,
        {
            order.push(left - offset);
            let upper = right + offset;
            if upper < numthreads {
                order.push(upper);
            }
            offset = offset + 1;
        }
    } else {
        let center = numthreads / 2;
        order.push(center);
        let mut offset: usize = 1;
        while offset <= center
            invariant
                numthreads >= 4,
                numthreads % 2 == 1,
                center == numthreads / 2,
                1 <= offset <= center + 1,
                order@.len() == 2 * offset - 1,
                forall|k: int| 0 <= k < 2 * offset - 1 ==> #[trigger] order@[k] == section_at(
                    numthreads as int,
                    k,
                ),
            decreases center + 1 - offset,
        {
            order.push(center - offset);
            let upper = center + offset;
            if upper < numthreads {
                order.push(upper);
            }
            offset = offset + 1;
        }
    }
    order
}

/// The section order visits every section exactly once.
pub proof fn lemma_section_order_is_permutation(n: int)
    requires
        n >= 0,
    ensures
        forall|k: int| 0 <= k < n ==> 0 <= #[trigger] section_at(n, k) < n,
        forall|a: int, b: int|
            0 <= a < n && 0 <= b < n && a != b ==> #[trigger] section_at(n, a) != #[trigger] section_at(
                n,
                b,
            ),
{
}

/// A section of the band and the thread count it was cut for.
#[derive(Clone, Copy, Debug, PartialEq, Eq, Structural)]
pub struct JtdxDecodeBand {
    pub index: usize,
    pub nfa: i32,
    pub nfb: i32,
    pub numthreads: usize,
}

/// The width of a section: the band width over the thread count, rounded
/// half away from zero.
pub open spec fn section_width(nfa: int, nfb: int, n: int) -> int {
    let w = if nfb >= nfa {
        nfb - nfa
    } else {
        nfa - nfb
    };
    (2 * w + n) / (2 * n)
}

/// The upper edge of section `i - 1` (for `1 <= i < n`): `i` widths above
/// the lower band edge, kept one below the top edge for the last cut.
pub open spec fn cut(nfa: int, nfb: int, n: int, i: int) -> int {
    let m = nfa + section_width(nfa, nfb, n) * i;
    if i == n - 1 && m + 1 > nfb {
        nfb - 1
    } else {
        m
    }
}

/// Section `index` of the band cut in `n`.
pub open spec fn section_band(nfa: int, nfb: int, n: int, index: int) -> (int, int) {
    (
        if index == 0 {
            nfa
        } else {
            cut(nfa, nfb, n, index) + 1
        },
        if index + 1 == n {
            nfb
        } else {
            cut(nfa, nfb, n, index + 1)
        },
    )
}

/// The sections tile the band: the first starts at its lower edge, the last
/// ends at its upper edge, and each starts one above where the one below
/// it ends.
pub proof fn lemma_sections_tile_band(nfa: int, nfb: int, n: int)
    requires
        n >= 2,
    ensures
        section_band(nfa, nfb, n, 0).0 == nfa,
        section_band(nfa, nfb, n, n - 1).1 == nfb,
        forall|idx: int| 0 <= idx < n - 1 ==> #[trigger] section_band(nfa, nfb, n, idx + 1).0 == section_band(nfa, nfb, n, idx).1 + 1,
{
}

/// The sections of the band in search order; one section when one thread
/// runs or the band is too narrow to cut.
pub open spec fn is_band_plan(r: Seq<JtdxDecodeBand>, nfa: int, nfb: int, n: int) -> bool {
    if n <= 1 || nfb <= nfa + 1 {
        r == seq![JtdxDecodeBand { index: 0, nfa: nfa as i32, nfb: nfb as i32, numthreads: 1 }]
    } else {
        &&& r.len() == n
        &&& forall|k: int| 0 <= k < n ==> {
            let idx = #[trigger] section_at(n, k);
            let (lo, hi) = section_band(nfa, nfb, n, idx);
            &&& r[k].index == idx
            &&& r[k].nfa == lo
            &&& r[k].nfb == hi
            &&& r[k].numthreads == n
        }
    }
}

fn cut_exec(nfa: i32, nfb: i32, n: usize, d: i32, i: usize) -> (m: i32)
    requires
        nfb > nfa + 1,
        2 <= n <= 24,
        1 <= i < n,
        d == section_width(nfa as int, nfb as int, n as int),
        nfa + d * (n - 1) < i32::MAX,
    ensures
        m == cut(nfa as int, nfb as int, n as int, i as int),
        m < i32::MAX,
{
    let w: i64 = (nfb as i64) - (nfa as i64);
    assert(0 <= d * i <= d * (n - 1)) by (nonlinear_arith)
        requires
            d == (2 * w + n) / (2 * n),
            2 <= n <= 24,
            1 <= i < n,
            w >= 0,
    {
        assert(d >= 0);
    }
    let di: i64 = (d as i64) * (i as i64);
    let m64: i64 = nfa as i64 + di;
    if i == n - 1 && m64 + 1 > nfb as i64 {
        nfb - 1
    } else {
        m64 as i32
    }
}

/// Cutting the band stays in `i32`: with two threads or more the lower
/// edge has a successor, and a band wide enough to cut spans at most
/// `i32::MAX`, its last cut and the offset to it lying below `i32::MAX`.
pub open spec fn band_cut_fits(nfa: int, nfb: int, n: int) -> bool {
    n >= 2 ==> {
        &&& nfa < i32::MAX
        &&& nfb > nfa + 1 ==> {
            let d = section_width(nfa, nfb, n);
            &&& nfb - nfa <= i32::MAX
            &&& d * (n - 1) <= i32::MAX
            &&& nfa + d * (n - 1) < i32::MAX
        }
    }
}

/// The band cut into sections for `numthreads` threads, in search order.
pub fn jtdx_decode_bands(nfa: i32, nfb: i32, numthreads: usize) -> (r: Vec<JtdxDecodeBand>)
    requires
        numthreads <= 24,
        band_cut_fits(nfa as int, nfb as int, numthreads as int),
    ensures
        is_band_plan(r@, nfa as int, nfb as int, numthreads as int),
{
    if numthreads <= 1 || nfb <= nfa + 1 {
        let mut one: Vec<JtdxDecodeBand> = Vec::new();
        one.push(JtdxDecodeBand { index: 0, nfa, nfb, numthreads: 1 });
        proof {
            assert(one@ =~= seq![JtdxDecodeBand { index: 0, nfa: nfa as i32, nfb: nfb as i32, numthreads: 1 }]);
        }
        return one;
    }
    let w: i64 = (nfb as i64) - (nfa as i64);
    let n64 = numthreads as i64;
    assert(0 <= (2 * w + n64) / (2 * n64) <= w) by (nonlinear_arith)
        requires
            w >= 2,
            2 <= n64 <= 24,
    ;
    let d: i32 = ((2 * w + n64) / (2 * n64)) as i32;
    let order = jtdx_section_order(numthreads);
    proof {
        lemma_section_order_is_permutation(numthreads as int);
    }
    let mut r: Vec<JtdxDecodeBand> = Vec::new();
    let mut k: usize = 0;
    while k < numthreads
        invariant
            2 <= numthreads <= 24,
            nfb > nfa + 1,
            nfa + d * (numthreads - 1) < i32::MAX,
            d == section_width(nfa as int, nfb as int, numthreads as int),
            order@.len() == numthreads,
            forall|t: int| 0 <= t < numthreads ==> #[trigger] order@[t] == section_at(numthreads as int, t),
            forall|t: int| 0 <= t < numthreads ==> 0 <= #[trigger] section_at(numthreads as int, t) < numthreads,
            k <= numthreads,
            r@.len() == k,
            forall|t: int| 0 <= t < k ==> {
                let idx = #[trigger] section_at(numthreads as int, t);
                let (lo, hi) = section_band(nfa as int, nfb as int, numthreads as int, idx);
                &&& r@[t].index == idx
                &&& r@[t].nfa == lo
                &&& r@[t].nfb == hi
                &&& r@[t].numthreads == numthreads
            },
        decreases numthreads - k,
    {
        let index = order[k];
        assert(index == section_at(numthreads as int, k as int));
        let lo: i32 = if index == 0 {
            nfa
        } else {
            cut_exec(nfa, nfb, numthreads, d, index) + 1
        };
        let hi: i32 = if index + 1 == numthreads {
            nfb
        } else {
            cut_exec(nfa, nfb, numthreads, d, index + 1)
        };
        let ghost before = r@;
        r.push(JtdxDecodeBand { index, nfa: lo, nfb: hi, numthreads });
        proof {
            let (slo, shi) = section_band(nfa as int, nfb as int, numthreads as int, index as int);
            assert(lo == slo && hi == shi);
            assert forall|t: int| 0 <= t < k + 1 implies {
                let idx = #[trigger] section_at(numthreads as int, t);
                let (lo2, hi2) = section_band(nfa as int, nfb as int, numthreads as int, idx);
                &&& r@[t].index == idx
                &&& r@[t].nfa == lo2
                &&& r@[t].nfb == hi2
                &&& r@[t].numthreads == numthreads
            } by {
                if t < k {
                    assert(r@[t] == before[t]);
                }
            }
        }
        k = k + 1;
    }
    r
}

} // verus!
