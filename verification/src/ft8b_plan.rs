//! The decisions of a candidate's decode: which QSO messages to try and
//! when, which AP sub-passes run, how deep the AP decoder searches, and
//! which soft-metric set a sub-pass reads. Times are in milliseconds and
//! frequencies in millihertz.
use vstd::prelude::*;
use crate::ap_plan::table_for;
use crate::ap_subpass::{config_call, ApCallFlags, ApClassifier};
use crate::text::{byte_len, trim};

verus! {

/// The QSO messages to try on a candidate: how many (`nqso`), the time
/// offset to try them at, and whether the candidate stands for a signal
/// of the previous (`lvirtual2`) or next (`lvirtual3`) interval.
#[derive(Clone, Copy, Debug, PartialEq, Eq)]
pub struct QsoPlan {
    pub nqso: usize,
    pub xdt0_ms: i64,
    pub lvirtual2: bool,
    pub lvirtual3: bool,
}

/// The QSO steps tried for a plan.
pub open spec fn attempts_of(plan: QsoPlan) -> Seq<usize> {
    if plan.lvirtual2 {
        seq![2usize]
    } else if plan.lvirtual3 {
        seq![2usize, 3usize]
    } else if plan.nqso == 2 {
        seq![1usize, 2usize]
    } else if plan.nqso == 3 {
        seq![1usize, 2usize, 3usize]
    } else if plan.nqso == 4 {
        seq![1usize, 4usize]
    } else {
        seq![1usize]
    }
}

pub fn qso_attempts(plan: QsoPlan) -> (r: Vec<usize>)
    ensures
        r@ == attempts_of(plan),
{
    let mut r: Vec<usize> = Vec::new();
    if plan.lvirtual2 {
        r.push(2);
    } else if plan.lvirtual3 {
        r.push(2);
        r.push(3);
    } else {
        r.push(1);
        if plan.nqso == 2 {
            r.push(2);
        } else if plan.nqso == 3 {
            r.push(2);
            r.push(3);
        } else if plan.nqso == 4 {
            r.push(4);
        }
    }
    proof {
        assert(r@ =~= attempts_of(plan));
    }
    r
}

/// What the QSO plan reads of the decoder's state for a candidate.
#[derive(Clone, Copy, Debug, Default, PartialEq, Eq)]
pub struct QsoContext {
    pub lft8sdec: bool,
    pub lqsomsgdcd: bool,
    pub stophint: bool,
    pub nlasttx: usize,
    pub last_rx_xdt_ms: Option<i64>,
    pub call_dt_xdt_ms: Option<i64>,
    pub last_rx_is_rrr: bool,
    pub has_sd_msg: bool,
    pub levenint: bool,
    pub loddint: bool,
}

pub open spec fn abs_diff(a: int, b: int) -> int {
    if a >= b {
        a - b
    } else {
        b - a
    }
}

/// The plan after the last rule: a stored message with a single QSO try
/// becomes the fourth try.
pub open spec fn with_sd_try(plan: QsoPlan, context: QsoContext) -> QsoPlan {
    if context.has_sd_msg && plan.nqso == 1 {
        QsoPlan { nqso: 4, ..plan }
    } else {
        plan
    }
}

/// The QSO plan of a candidate at `freq_mhz` and `dt_ms`.
pub open spec fn qso_plan_of(
    nfa_mhz: i64,
    nfb_mhz: i64,
    nfqso_mhz: i64,
    hiscall: Option<&str>,
    freq_mhz: i64,
    dt_ms: i64,
    c: QsoContext,
) -> QsoPlan {
    let base = QsoPlan { nqso: 1, xdt0_ms: dt_ms, lvirtual2: false, lvirtual3: false };
    let active = nfa_mhz <= nfqso_mhz <= nfb_mhz && !c.lft8sdec;
    let has_hiscall = active && match hiscall {
        Some(h) => byte_len(trim(h@)) >= 3,
        None => false,
    };
    let fdelta = abs_diff(freq_mhz as int, nfqso_mhz as int);
    if active {
        let first = if !c.lqsomsgdcd && !c.stophint && 1 <= c.nlasttx <= 4 && fdelta < 2510 && match c.last_rx_xdt_ms {
            Some(x) => abs_diff(x as int, dt_ms as int) < 180,
            None => true,
        } {
            QsoPlan { nqso: 2, ..base }
        } else {
            base
        };
        let maxlasttx: usize = if (dt_ms > 4900 || dt_ms < -4900) && c.last_rx_is_rrr {
            5
        } else {
            4
        };
        if !has_hiscall || c.lqsomsgdcd || c.stophint || fdelta >= 100 {
            with_sd_try(first, c)
        } else if !(1 <= c.nlasttx <= maxlasttx) {
            with_sd_try(first, c)
        } else {
            let virt = if dt_ms > 4900 {
                match (c.last_rx_xdt_ms, c.call_dt_xdt_ms) {
                    (Some(x), _) => QsoPlan { nqso: 2, xdt0_ms: x, lvirtual2: true, ..first },
                    (None, Some(x)) => QsoPlan { nqso: 3, xdt0_ms: x, lvirtual2: true, ..first },
                    (None, None) => first,
                }
            } else if dt_ms < -4900 {
                match (c.last_rx_xdt_ms, c.call_dt_xdt_ms) {
                    (Some(x), _) => QsoPlan { nqso: 3, xdt0_ms: x, lvirtual3: true, ..first },
                    (None, Some(x)) => QsoPlan { nqso: 3, xdt0_ms: x, lvirtual3: true, ..first },
                    (None, None) => first,
                }
            } else {
                first
            };
            let settled = if !c.levenint && !c.loddint {
                QsoPlan { lvirtual2: false, lvirtual3: false, ..virt }
            } else {
                virt
            };
            with_sd_try(settled, c)
        }
    } else {
        let settled = if !c.levenint && !c.loddint {
            QsoPlan { lvirtual2: false, lvirtual3: false, ..base }
        } else {
            base
        };
        with_sd_try(settled, c)
    }
}

fn diff_abs(a: i64, b: i64) -> (r: i128)
    ensures
        r == abs_diff(a as int, b as int),
{
    let d = a as i128 - b as i128;
    if d < 0 {
        -d
    } else {
        d
    }
}

/// The QSO plan of a candidate: inside the QSO band, with a QSO in
/// progress and a recent transmission, a candidate near the QSO frequency
/// and time gets the second QSO message; one far out in time stands for
/// the previous or next interval, at the time of the last reception or of
/// the call.
pub fn jtdx_qso_plan(
    nfa_mhz: i64,
    nfb_mhz: i64,
    nfqso_mhz: i64,
    hiscall: Option<&str>,
    freq_mhz: i64,
    dt_ms: i64,
    context: QsoContext,
) -> (r: QsoPlan)
    ensures
        r == qso_plan_of(nfa_mhz, nfb_mhz, nfqso_mhz, hiscall, freq_mhz, dt_ms, context),
{
    let mut plan = QsoPlan { nqso: 1, xdt0_ms: dt_ms, lvirtual2: false, lvirtual3: false };
    let lqsothread = nfqso_mhz >= nfa_mhz && nfqso_mhz <= nfb_mhz;
    let active = lqsothread && !context.lft8sdec;
    let has_hiscall = active && match hiscall {
        Some(h) => {
            let hc = crate::text::chars_of(h);
            let t = crate::text::trim_chars(&hc);
            crate::text::byte_len_chars(&t) >= 3
        },
        None => false,
    };
    let fdelta = diff_abs(freq_mhz, nfqso_mhz);
    if active {
        if !context.lqsomsgdcd && !context.stophint && 1 <= context.nlasttx && context.nlasttx <= 4
            && fdelta < 2510 {
            match context.last_rx_xdt_ms {
                Some(x) => {
                    if diff_abs(x, dt_ms) < 180 {
                        plan.nqso = 2;
                    }
                },
                None => {
                    plan.nqso = 2;
                },
            }
        }
        if !has_hiscall || context.lqsomsgdcd || context.stophint || fdelta >= 100 {
            if context.has_sd_msg && plan.nqso == 1 {
                plan.nqso = 4;
            }
            return plan;
        }
        let mut maxlasttx: usize = 4;
        if (dt_ms > 4900 || dt_ms < -4900) && context.last_rx_is_rrr {
            maxlasttx = 5;
        }
        if !(1 <= context.nlasttx && context.nlasttx <= maxlasttx) {
            if context.has_sd_msg && plan.nqso == 1 {
                plan.nqso = 4;
            }
            return plan;
        }
        if dt_ms > 4900 {
            match context.last_rx_xdt_ms {
                Some(x) => {
                    plan.xdt0_ms = x;
                    plan.nqso = 2;
                    plan.lvirtual2 = true;
                },
                None => match context.call_dt_xdt_ms {
                    Some(x) => {
                        plan.xdt0_ms = x;
                        plan.nqso = 3;
                        plan.lvirtual2 = true;
                    },
                    None => {},
                },
            }
        } else if dt_ms < -4900 {
            match context.last_rx_xdt_ms {
                Some(x) => {
                    plan.xdt0_ms = x;
                    plan.nqso = 3;
                    plan.lvirtual3 = true;
                },
                None => match context.call_dt_xdt_ms {
                    Some(x) => {
                        plan.xdt0_ms = x;
                        plan.nqso = 3;
                        plan.lvirtual3 = true;
                    },
                    None => {},
                },
            }
        }
    }
    if !context.levenint && !context.loddint {
        plan.lvirtual2 = false;
        plan.lvirtual3 = false;
    }
    if context.has_sd_msg && plan.nqso == 1 {
        plan.nqso = 4;
    }
    plan
}

/// The AP sub-passes of a row of the AP table: sub-pass `5 + k` for each
/// nonzero entry `k` of the first `n`, with its AP type.
pub open spec fn row_subpasses(row: Seq<i32>, n: int) -> Seq<(usize, i32)>
    decreases n,
{
    if n <= 0 {
        Seq::empty()
    } else if row[n - 1] != 0 {
        row_subpasses(row, n - 1).push(((n + 4) as usize, row[n - 1]))
    } else {
        row_subpasses(row, n - 1)
    }
}

/// The AP sub-passes of a configuration, none with AP decoding off: the row
/// of the QSO progress (the last row past it) of the configuration's table.
pub open spec fn ap_subpasses_of(lft8apon: bool, nqso_progress: usize, lhound: bool, calls: ApCallFlags) -> Seq<(usize, i32)> {
    if !lft8apon {
        Seq::empty()
    } else {
        let iqso = if nqso_progress < 5 {
            nqso_progress as int
        } else {
            5
        };
        row_subpasses(table_for(lhound, calls)[iqso]@, 27)
    }
}

pub fn plan_ap_subpasses(lft8apon: bool, nqso_progress: usize, lhound: bool, calls: ApCallFlags) -> (r: Vec<(usize, i32)>)
    ensures
        r@ == ap_subpasses_of(lft8apon, nqso_progress, lhound, calls),
{
    let mut r: Vec<(usize, i32)> = Vec::new();
    if !lft8apon {
        return r;
    }
    let iqso: usize = if nqso_progress < 5 {
        nqso_progress
    } else {
        5
    };
    let table: [[i32; 27]; 6] = if lhound {
        crate::ap_plan::NHAPTYPES
    } else if calls.lmycallstd && (calls.lhiscallstd || calls.lnohiscall) {
        crate::ap_plan::NAPTYPES
    } else if calls.lmycallstd && !calls.lhiscallstd && !calls.lnohiscall {
        crate::ap_plan::NDXNSAPTYPES
    } else if !calls.lmycallstd && !calls.lhiscallstd && !calls.lnohiscall {
        crate::ap_plan::NDXNSAPTYPES
    } else {
        crate::ap_plan::NMYCNSAPTYPES
    };
    let row = table[iqso];
    let mut isubp2: usize = 5;
    while isubp2 < 32
        invariant
            5 <= isubp2 <= 32,
            row == table_for(lhound, calls)[iqso as int],
            r@ == row_subpasses(row@, isubp2 - 5),
        decreases 32 - isubp2,
    {
        let iaptype = row[isubp2 - 5];
        if iaptype != 0 {
            r.push((isubp2, iaptype));
        }
        isubp2 = isubp2 + 1;
    }
    r
}

/// The number of sub-passes of a signal that has stored symbol spectra:
/// eleven for a QSO candidate, eight for a signal to my call, five for a
/// CQ; otherwise, or without stored spectra, the classifier's own count.
pub open spec fn subpasses_with_csold(c: ApClassifier, nsubpasses: usize, has_csold: bool) -> usize {
    if !has_csold {
        nsubpasses
    } else if c.lqsocandave {
        11
    } else if c.lmycsignal {
        8
    } else if c.lcqsignal {
        5
    } else {
        nsubpasses
    }
}

pub fn nsubpasses_with_csold(classifier: &ApClassifier, nsubpasses: usize, has_csold: bool) -> (r: usize)
    ensures
        r == subpasses_with_csold(*classifier, nsubpasses, has_csold),
{
    if !has_csold {
        return nsubpasses;
    }
    if classifier.lqsocandave {
        11
    } else if classifier.lmycsignal {
        8
    } else if classifier.lcqsignal {
        5
    } else {
        nsubpasses
    }
}

/// What the AP search depth reads of the configuration.
#[derive(Clone, Copy, Debug, Default, PartialEq, Eq)]
pub struct DepthConfig {
    pub nagain: bool,
    pub lhound: bool,
    pub nfqso_mhz: i64,
    pub nftx_mhz: i64,
    pub napwid_mhz: i64,
}

/// The signal kinds the AP search depth reads.
#[derive(Clone, Copy, Debug, Default, PartialEq, Eq)]
pub struct DepthSignal {
    pub lqsosig: bool,
    pub lmycsignal: bool,
    pub ldxcsig: bool,
}

/// The depth of the AP decoder's search: 5 on a second decode of the
/// interval; 3 for a Hound; 4 for a QSO or my-call signal within the AP
/// width of the QSO (or, with my call set, the transmit) frequency unless
/// the QSO message was decoded, the type is 0 or a hint names his call;
/// 4 for his signal near the QSO frequency after the hint stopped; else 3.
pub open spec fn ap_depth(
    config: DepthConfig,
    mycall: Option<&str>,
    hiscall: Option<&str>,
    signal: DepthSignal,
    lqsomsgdcd: bool,
    stophint: bool,
    refined_freq_mhz: i64,
    iaptype: i32,
) -> usize {
    let dfqso = abs_diff(config.nfqso_mhz as int, refined_freq_mhz as int);
    let lapmyc = config_call(mycall) is Some;
    let d1: usize = if signal.lqsosig || signal.lmycsignal {
        let a: usize = if (dfqso < config.napwid_mhz || (abs_diff(config.nftx_mhz as int, refined_freq_mhz as int)
            < config.napwid_mhz && lapmyc)) && !config.nagain {
            4
        } else {
            3
        };
        let b: usize = if (lapmyc && lqsomsgdcd) || iaptype == 0 {
            3
        } else {
            a
        };
        if !stophint && config_call(hiscall) is Some {
            3
        } else {
            b
        }
    } else {
        3
    };
    let d2: usize = if signal.ldxcsig && stophint && dfqso < config.napwid_mhz {
        4
    } else {
        d1
    };
    let d3: usize = if config.lhound {
        3
    } else {
        d2
    };
    if config.nagain {
        5
    } else {
        d3
    }
}

pub fn ap_ndeep(
    config: &DepthConfig,
    mycall: Option<&str>,
    hiscall: Option<&str>,
    signal: DepthSignal,
    lqsomsgdcd: bool,
    stophint: bool,
    refined_freq_mhz: i64,
    iaptype: i32,
) -> (r: usize)
    ensures
        r == ap_depth(*config, mycall, hiscall, signal, lqsomsgdcd, stophint, refined_freq_mhz, iaptype),
{
    let mut ndeep: usize = 3;
    let dfqso = diff_abs(config.nfqso_mhz, refined_freq_mhz);
    let lapmyc = crate::ap_subpass::normalized_config_call(mycall).is_some();
    if signal.lqsosig || signal.lmycsignal {
        if (dfqso < config.napwid_mhz as i128 || (diff_abs(config.nftx_mhz, refined_freq_mhz)
            < config.napwid_mhz as i128 && lapmyc)) && !config.nagain {
            ndeep = 4;
        }
        if (lapmyc && lqsomsgdcd) || iaptype == 0 {
            ndeep = 3;
        }
        if !stophint && crate::ap_subpass::normalized_config_call(hiscall).is_some() {
            ndeep = 3;
        }
    }
    if signal.ldxcsig && stophint && dfqso < config.napwid_mhz as i128 {
        ndeep = 4;
    }
    if config.lhound {
        ndeep = 3;
    }
    if config.nagain {
        5
    } else {
        ndeep
    }
}

/// One of the four soft-metric sets of a candidate.
#[derive(Clone, Copy, Debug, PartialEq, Eq)]
pub enum MetricSet {
    A,
    B,
    C,
    D,
}

/// The metric set of regular sub-pass `isubp2` (1 to 4).
pub open spec fn regular_metric(swl: bool, ipass: usize, isubp1: usize, isubp2: usize) -> MetricSet {
    if isubp2 == 1 {
        if (!swl && ipass == 1) || (isubp1 > 1 && ipass > 1) {
            MetricSet::D
        } else {
            MetricSet::A
        }
    } else if isubp2 == 2 {
        if isubp1 > 1 {
            MetricSet::A
        } else {
            MetricSet::B
        }
    } else if isubp2 == 3 {
        MetricSet::C
    } else {
        MetricSet::D
    }
}

pub fn regular_llr_source(swl: bool, ipass: usize, isubp1: usize, isubp2: usize) -> (r: MetricSet)
    requires
        1 <= isubp2 <= 4,
    ensures
        r == regular_metric(swl, ipass, isubp1, isubp2),
{
    if isubp2 == 1 {
        if (!swl && ipass == 1) || (isubp1 > 1 && ipass > 1) {
            MetricSet::D
        } else {
            MetricSet::A
        }
    } else if isubp2 == 2 {
        if isubp1 > 1 {
            MetricSet::A
        } else {
            MetricSet::B
        }
    } else if isubp2 == 3 {
        MetricSet::C
    } else {
        MetricSet::D
    }
}

/// The metric set of AP sub-pass `isubp2` (from 5): the sets cycle C, B, A,
/// except that the QSO-message types 4 to 6 read B on sub-passes 10, 13
/// and 16.
pub open spec fn ap_metric(isubp2: usize, iaptype: i32) -> MetricSet {
    if 4 <= iaptype <= 6 && (isubp2 == 10 || isubp2 == 13 || isubp2 == 16) {
        MetricSet::B
    } else if (isubp2 - 5) % 3 == 0 {
        MetricSet::C
    } else if (isubp2 - 5) % 3 == 1 {
        MetricSet::B
    } else {
        MetricSet::A
    }
}

pub fn ap_llr_source(isubp2: usize, iaptype: i32) -> (r: MetricSet)
    requires
        isubp2 >= 5,
    ensures
        r == ap_metric(isubp2, iaptype),
{
    if 4 <= iaptype && iaptype <= 6 && (isubp2 == 10 || isubp2 == 13 || isubp2 == 16) {
        return MetricSet::B;
    }
    let k = (isubp2 - 5) % 3;
    if k == 0 {
        MetricSet::C
    } else if k == 1 {
        MetricSet::B
    } else {
        MetricSet::A
    }
}

/// A configured call that is set and standard once normalized.
pub open spec fn standard_config_call(call: Option<&str>) -> bool {
    match config_call(call) {
        Some(c) => !crate::ap_subpass::nonstandard(c),
        None => false,
    }
}

fn is_standard_config_call(call: Option<&str>) -> (r: bool)
    ensures
        r == standard_config_call(call),
{
    match crate::ap_subpass::normalized_config_call(call) {
        Some(c) => !crate::ap_subpass::is_nonstandard_call(c.as_str()),
        None => false,
    }
}

/// Both configured calls are set and standard.
pub fn jtdx_config_calls_standard(mycall: Option<&str>, hiscall: Option<&str>) -> (r: bool)
    ensures
        r == (standard_config_call(mycall) && standard_config_call(hiscall)),
{
    is_standard_config_call(mycall) && is_standard_config_call(hiscall)
}

/// A candidate stands for the previous or the next interval only when the
/// decoder keeps the signals of that interval, never for both, and it gets
/// one to four QSO tries.
pub proof fn lemma_virtual_plans_need_interval_memory(
    nfa_mhz: i64,
    nfb_mhz: i64,
    nfqso_mhz: i64,
    hiscall: Option<&str>,
    freq_mhz: i64,
    dt_ms: i64,
    context: QsoContext,
)
    ensures
        ({
            let p = qso_plan_of(nfa_mhz, nfb_mhz, nfqso_mhz, hiscall, freq_mhz, dt_ms, context);
            &&& (p.lvirtual2 || p.lvirtual3) ==> (context.levenint || context.loddint)
            &&& !(p.lvirtual2 && p.lvirtual3)
            &&& 1 <= p.nqso <= 4
        }),
{
}

/// The AP sub-passes come in increasing order, each between 5 and 31 and
/// each with a nonzero AP type.
pub proof fn lemma_ap_subpasses_ordered(lft8apon: bool, nqso_progress: usize, lhound: bool, calls: ApCallFlags)
    ensures
        ({
            let s = ap_subpasses_of(lft8apon, nqso_progress, lhound, calls);
            &&& forall|i: int| 0 <= i < s.len() ==> 5 <= (#[trigger] s[i]).0 <= 31 && s[i].1 != 0
            &&& forall|i: int, j: int| 0 <= i < j < s.len() ==> (#[trigger] s[i]).0 < (#[trigger] s[j]).0
        }),
{
    if lft8apon {
        let iqso = if nqso_progress < 5 {
            nqso_progress as int
        } else {
            5
        };
        lemma_row_subpasses_ordered(table_for(lhound, calls)[iqso]@, 27);
    }
}

proof fn lemma_row_subpasses_ordered(row: Seq<i32>, n: int)
    requires
        0 <= n <= row.len(),
        n <= 27,
    ensures
        ({
            let s = row_subpasses(row, n);
            &&& forall|i: int| 0 <= i < s.len() ==> 5 <= (#[trigger] s[i]).0 < n + 5 && s[i].1 != 0
            &&& forall|i: int, j: int| 0 <= i < j < s.len() ==> (#[trigger] s[i]).0 < (#[trigger] s[j]).0
        }),
    decreases n,
{
    if n > 0 {
        lemma_row_subpasses_ordered(row, n - 1);
        let prev = row_subpasses(row, n - 1);
        let s = row_subpasses(row, n);
        if row[n - 1] != 0 {
            assert(s == prev.push(((n + 4) as usize, row[n - 1])));
            assert forall|i: int| 0 <= i < prev.len() implies #[trigger] s[i] == prev[i] by {}
            assert forall|i: int, j: int| 0 <= i < j < s.len() implies (#[trigger] s[i]).0 < (#[trigger] s[j]).0 by {
                if j < prev.len() {
                    assert(s[i] == prev[i] && s[j] == prev[j]);
                } else {
                    assert(s[i] == prev[i]);
                }
            }
        }
    }
}


/// What the fine sync of a candidate knows of its pass.
#[derive(Clone, Copy, Debug, PartialEq, Eq, Structural)]
pub struct Sync8dContext {
    pub ipass: usize,
    pub lastsync: bool,
    pub iqso: usize,
    pub lcq: bool,
    pub lcallsstd: bool,
    pub lcqcand: bool,
}

/// How the fine sync sums its Costas correlations: their magnitudes, their
/// powers, or the absolute parts of neighbouring pairs averaged.
#[derive(Clone, Copy, Debug, PartialEq, Eq, Structural)]
pub enum Sync8dMetric {
    Magnitude,
    Power,
    PairAveragedAbs,
}

/// The sum a pass uses: magnitudes on passes 1, 5 and 9, powers on 2, 6
/// and 7, averaged pairs on 3, 4 and 8, and powers on the last sync or any
/// other pass.
pub open spec fn sync8d_metric_spec(c: Sync8dContext) -> Sync8dMetric {
    if c.lastsync {
        Sync8dMetric::Power
    } else if c.ipass == 1 || c.ipass == 5 || c.ipass == 9 {
        Sync8dMetric::Magnitude
    } else if c.ipass == 3 || c.ipass == 4 || c.ipass == 8 {
        Sync8dMetric::PairAveragedAbs
    } else {
        Sync8dMetric::Power
    }
}

/// The sum the fine sync of a pass uses.
pub fn sync8d_metric(context: &Sync8dContext) -> (m: Sync8dMetric)
    ensures
        m == sync8d_metric_spec(*context),
{
    if context.lastsync {
        return Sync8dMetric::Power;
    }
    match context.ipass {
        1 | 5 | 9 => Sync8dMetric::Magnitude,
        2 | 6 | 7 => Sync8dMetric::Power,
        3 | 4 | 8 => Sync8dMetric::PairAveragedAbs,
        _ => Sync8dMetric::Power,
    }
}

} // verus!
