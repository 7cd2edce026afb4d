//! The classification of a candidate signal from the strongest tone of each
//! of its 79 symbols, matched against the tone sequences of the messages
//! the operator expects: a CQ, a call to me, a QSO message of his, his CQ
//! or report with a nonstandard call, and a Fox's reports to a Hound.
//! Frequencies are in millihertz.
use vstd::prelude::*;
use crate::ap_subpass::{config_call, nonstandard};
use crate::ft8b_plan::abs_diff;

verus! {

/// What the classification reads of a candidate's symbol spectra: the
/// strongest tone of each symbol, and the 1-based positions of the peak of
/// the CQ-pattern correlation over its first nine lags and over all lags.
#[derive(Clone, Copy, Debug, PartialEq, Eq)]
pub struct SymbolTones {
    pub best: [u8; 79],
    pub s256_peak9: usize,
    pub s256_peak: usize,
}

/// The tone sequences of the messages the operator expects.
#[derive(Clone, Debug, Default)]
pub struct ToneHints {
    pub idtonemyc: Option<[i32; 58]>,
    pub idtone56: Vec<[i32; 58]>,
    pub idtonecqdxcns: Option<[i32; 58]>,
    pub idtonedxcns73: Option<[i32; 58]>,
    pub idtonefox73: Option<[i32; 58]>,
    pub idtonespec: Option<[i32; 58]>,
}

/// What the classification reads of the configuration.
#[derive(Clone, Copy, Debug, Default, PartialEq, Eq)]
pub struct ClassifyConfig {
    pub nfqso_mhz: i64,
    pub nftx_mhz: i64,
    pub napwid_mhz: i64,
    pub nqso_progress: usize,
    pub lhound: bool,
    pub lft8subpass: bool,
    pub swl: bool,
}

/// The classes of a candidate signal and the number of sub-passes it gets.
#[derive(Clone, Copy, Debug, Default, PartialEq, Eq)]
pub struct SignalClassifier {
    pub lcqsignal: bool,
    pub lmycsignal: bool,
    pub lqsosig: bool,
    pub lqsosigtype3: bool,
    pub lqsocandave: bool,
    pub lqso73: bool,
    pub lqsorr73: bool,
    pub lqsorrr: bool,
    pub ldxcsig: bool,
    pub lcqdxcsig: bool,
    pub lcqdxcnssig: bool,
    pub nmic: usize,
    pub nweak: usize,
    pub nsubpasses: usize,
    pub lfoxspecrpt: bool,
    pub lfoxstdr73: bool,
    pub nfoxspecrpt: usize,
}

/// The number of `k < n` where symbol `s + k` shows tone `tones[t + k]`.
pub open spec fn tone_hits(best: Seq<u8>, tones: Seq<i32>, s: int, t: int, n: int) -> int
    decreases n,
{
    if n <= 0 {
        0
    } else {
        tone_hits(best, tones, s, t, n - 1) + if best[s + n - 1] as int == tones[t + n - 1] as int {
            1int
        } else {
            0int
        }
    }
}

/// The number of `k < n` where symbol `s + k` shows tone `v`.
pub open spec fn tone_count(best: Seq<u8>, v: u8, s: int, n: int) -> int
    decreases n,
{
    if n <= 0 {
        0
    } else {
        tone_count(best, v, s, n - 1) + if best[s + n - 1] == v {
            1int
        } else {
            0int
        }
    }
}

/// The matches of the report-and-end part of a message: tones 23 to 57
/// in symbols 30 to 35 and 43 to 71.
pub open spec fn end_hits(best: Seq<u8>, tones: Seq<i32>) -> int {
    tone_hits(best, tones, 30, 23, 6) + tone_hits(best, tones, 43, 29, 29)
}

/// Twice the CQ score: a whole point for each of symbols 7 to 14 on tone 0
/// and symbol 15 on tone 1, half a point for symbols 16 and 26 on tone 0
/// or 1 and symbol 32 on tone 2 or 3.
pub open spec fn cq_score2(best: Seq<u8>) -> int {
    2 * tone_count(best, 0, 7, 8) + (if best[15] == 1 {
        2int
    } else {
        0int
    }) + (if best[16] <= 1 {
        1int
    } else {
        0int
    }) + (if best[26] <= 1 {
        1int
    } else {
        0int
    }) + (if best[32] == 2 || best[32] == 3 {
        1int
    } else {
        0int
    })
}

/// A CQ: the correlation peaks at lag 5 of the first nine or the score is
/// over 3.1; or the first peak is at lag 4 or 6 and the overall one too.
pub open spec fn cq_signal(t: SymbolTones) -> bool {
    let first = t.s256_peak9 == 5 || cq_score2(t.best@) > 6;
    first || ((t.s256_peak9 == 4 || t.s256_peak9 == 6) && (t.s256_peak == 4 || t.s256_peak == 6))
}

pub open spec fn raw_nonstandard(call: Option<&str>) -> bool {
    match call {
        Some(c) => nonstandard(c@),
        None => false,
    }
}

/// The index of the largest of three counts, the last one on a tie.
pub open spec fn last_max3(c0: int, c1: int, c2: int) -> int {
    if c2 >= c1 && c2 >= c0 {
        2
    } else if c1 >= c0 {
        1
    } else {
        0
    }
}

pub open spec fn pick3(i: int, c0: int, c1: int, c2: int) -> int {
    if i == 0 {
        c0
    } else if i == 1 {
        c1
    } else {
        c2
    }
}

/// The QSO part of the classification: whether the first 19 (or 22) tones
/// of the QSO message match, how many of his call's tones match, and which
/// of `73`, `RR73` or `RRR` ends the message when the QSO is near its end.
pub open spec fn qso_class(
    t: SymbolTones,
    c: ClassifyConfig,
    mycall: Option<&str>,
    hiscall: Option<&str>,
    freq_mhz: i64,
    lqsomsgdcd: bool,
    h: ToneHints,
) -> (bool, bool, int, bool, bool, bool) {
    let best = t.best@;
    let dfqso = abs_diff(c.nfqso_mhz as int, freq_mhz as int);
    let dftx = abs_diff(c.nftx_mhz as int, freq_mhz as int);
    let qso_gate = !lqsomsgdcd && (dfqso < c.napwid_mhz || dftx < c.napwid_mhz) && config_call(mycall) is Some
        && config_call(hiscall) is Some && h.idtone56@.len() > 0;
    if !qso_gate {
        (false, false, 0, false, false, false)
    } else {
        let q = h.idtone56@[0]@;
        let n19 = tone_hits(best, q, 7, 0, 19);
        let end_gate = dfqso < c.napwid_mhz && (c.nqso_progress == 3 || c.nqso_progress == 4) && h.idtone56@.len()
            >= 56;
        let c0 = end_hits(best, h.idtone56@[55]@);
        let c1 = end_hits(best, h.idtone56@[54]@);
        let c2 = end_hits(best, h.idtone56@[53]@);
        let idx = last_max3(c0, c1, c2);
        let ended = end_gate && pick3(idx, c0, c1, c2) > 6;
        (
            n19 > 6,
            n19 + tone_hits(best, q, 26, 19, 3) > 3,
            tone_hits(best, q, 16, 9, 10),
            ended && idx == 0,
            ended && idx == 1,
            ended && idx == 2,
        )
    }
}

/// His signal and his CQ when his call is nonstandard: the matches of his
/// report and of his CQ, with a lower bar near the QSO frequency; with a
/// standard call, his signal is over three matches of his call's tones.
pub open spec fn dx_class(t: SymbolTones, c: ClassifyConfig, hiscall: Option<&str>, freq_mhz: i64, h: ToneHints, ndxt: int) -> (bool, bool) {
    let best = t.best@;
    let dfqso = abs_diff(c.nfqso_mhz as int, freq_mhz as int);
    let hisns = raw_nonstandard(hiscall);
    if hisns && config_call(hiscall) is Some && h.idtonecqdxcns is Some {
        let cq = h.idtonecqdxcns->0@;
        let ncq = tone_hits(best, cq, 7, 0, 4) + tone_hits(best, cq, 11, 4, 19);
        let ndxt_ns = match h.idtonedxcns73 {
            Some(d) => tone_hits(best, d@, 11, 4, 19),
            None => 0,
        };
        if dfqso < c.napwid_mhz {
            (ndxt_ns > 4, ncq > 5)
        } else {
            (ndxt_ns > 5, ncq > 6)
        }
    } else {
        (!hisns && ndxt > 3, false)
    }
}

/// The classification of a candidate at `freq_mhz`.
pub open spec fn classification(
    t: SymbolTones,
    c: ClassifyConfig,
    mycall: Option<&str>,
    hiscall: Option<&str>,
    freq_mhz: i64,
    lqsomsgdcd: bool,
    nlasttx: usize,
    h: ToneHints,
) -> SignalClassifier {
    let best = t.best@;
    let lapmyc = config_call(mycall) is Some;
    let nmic = match h.idtonemyc {
        Some(m) => tone_hits(best, m@, 7, 0, 9),
        None => 0,
    };
    let lcqsignal = cq_signal(t);
    let lmycsignal = lapmyc && nmic > 2;
    let dfqso = abs_diff(c.nfqso_mhz as int, freq_mhz as int);
    let dftx = abs_diff(c.nftx_mhz as int, freq_mhz as int);
    let qso = qso_class(t, c, mycall, hiscall, freq_mhz, lqsomsgdcd, h);
    let ndxt = qso.2;
    let hisns = raw_nonstandard(hiscall);
    let dx = dx_class(t, c, hiscall, freq_mhz, h, ndxt);
    let lsubptxfreq = lapmyc && dftx < 2000 && !c.lhound && !lqsomsgdcd && (nlasttx == 1 || nlasttx == 2);
    let nweak: usize = if c.lft8subpass || c.swl || dfqso < 2000 || lsubptxfreq {
        2
    } else {
        1
    };
    let mystd = !raw_nonstandard(mycall);
    let lqsocandave = lapmyc && ndxt > 2 && nmic > 2 && !lqsomsgdcd && mystd && !hisns && 2 * dfqso
        < c.napwid_mhz;
    let nsubpasses: usize = if lqsocandave {
        9
    } else if lmycsignal && mystd {
        6
    } else if lcqsignal {
        3
    } else {
        nweak
    };
    let hound = hound_class(t, c, freq_mhz, h);
    SignalClassifier {
        lcqsignal,
        lmycsignal,
        lqsosig: qso.0,
        lqsosigtype3: qso.1,
        lqsocandave,
        lqso73: qso.3,
        lqsorr73: qso.4,
        lqsorrr: qso.5,
        ldxcsig: dx.0,
        lcqdxcsig: lcqsignal && !hisns && ndxt > 3,
        lcqdxcnssig: dx.1,
        nmic: nmic as usize,
        nweak,
        nsubpasses,
        lfoxspecrpt: hound.0,
        lfoxstdr73: hound.1,
        nfoxspecrpt: hound.2 as usize,
    }
}

/// A Hound's view of a Fox signal on one of the Fox's 60 Hz stream slots
/// near the QSO frequency: whether it carries a report to me rather than a
/// standard message, whether a standard `RR73` outweighs the special one,
/// and how many report tones matched.
pub open spec fn hound_class(t: SymbolTones, c: ClassifyConfig, freq_mhz: i64, h: ToneHints) -> (bool, bool, int) {
    let best = t.best@;
    let fdelta = abs_diff(freq_mhz as int, c.nfqso_mhz as int);
    if !c.lhound || !(c.nqso_progress == 1 || c.nqso_progress == 3) || h.idtonefox73 is None
        || h.idtonespec is None || fdelta >= 245000 || fdelta % 60000 >= 3000 {
        (false, false, 0)
    } else {
        let fox = h.idtonefox73->0@;
        let spec = h.idtonespec->0@;
        let base = tone_hits(best, fox, 7, 0, 18);
        let r73 = tone_hits(best, spec, 26, 19, 3) + tone_hits(best, spec, 31, 24, 1);
        let rpt = tone_hits(best, spec, 17, 10, 8) + r73;
        let lfoxspecrpt = if base == 0 {
            rpt > 0
        } else {
            18 * rpt > 12 * base
        };
        let fr73 = end_hits(best, fox);
        let lfoxstdr73 = c.nqso_progress == 3 && if r73 == 0 {
            fr73 > 0
        } else {
            4 * fr73 > 35 * r73
        };
        (lfoxspecrpt, lfoxstdr73, rpt)
    }
}

/// The sub-pass count is one of 1, 2, 3, 6 and 9, nine exactly for a QSO
/// candidate; at most one of `73`, `RR73` and `RRR` ends the QSO message.
pub proof fn lemma_classifier_shape(
    t: SymbolTones,
    c: ClassifyConfig,
    mycall: Option<&str>,
    hiscall: Option<&str>,
    freq_mhz: i64,
    lqsomsgdcd: bool,
    nlasttx: usize,
    h: ToneHints,
)
    ensures
        ({
            let r = classification(t, c, mycall, hiscall, freq_mhz, lqsomsgdcd, nlasttx, h);
            &&& r.nsubpasses == 1 || r.nsubpasses == 2 || r.nsubpasses == 3 || r.nsubpasses == 6 || r.nsubpasses == 9
            &&& (r.nsubpasses == 9 <==> r.lqsocandave)
            &&& (r.lqso73 as int) + (r.lqsorr73 as int) + (r.lqsorrr as int) <= 1
            &&& r.lqsocandave ==> r.lmycsignal
        }),
{
}

fn hits(best: &[u8; 79], tones: &[i32; 58], s: usize, t: usize, n: usize) -> (r: usize)
    requires
        s + n <= 79,
        t + n <= 58,
    ensures
        r == tone_hits(best@, tones@, s as int, t as int, n as int),
        r <= n,
{
    let mut r: usize = 0;
    let mut k: usize = 0;
    while k < n
        invariant
            k <= n,
            s + n <= 79,
            t + n <= 58,
            r <= k,
            r == tone_hits(best@, tones@, s as int, t as int, k as int),
        decreases n - k,
    {
        if best[s + k] as i32 == tones[t + k] {
            r = r + 1;
        }
        k = k + 1;
    }
    r
}

fn count_tone(best: &[u8; 79], v: u8, s: usize, n: usize) -> (r: usize)
    requires
        s + n <= 79,
    ensures
        r == tone_count(best@, v, s as int, n as int),
        r <= n,
{
    let mut r: usize = 0;
    let mut k: usize = 0;
    while k < n
        invariant
            k <= n,
            s + n <= 79,
            r <= k,
            r == tone_count(best@, v, s as int, k as int),
        decreases n - k,
    {
        if best[s + k] == v {
            r = r + 1;
        }
        k = k + 1;
    }
    r
}

fn end_hits_exec(best: &[u8; 79], tones: &[i32; 58]) -> (r: usize)
    ensures
        r == end_hits(best@, tones@),
        r <= 35,
{
    hits(best, tones, 30, 23, 6) + hits(best, tones, 43, 29, 29)
}

fn is_raw_nonstandard(call: Option<&str>) -> (r: bool)
    ensures
        r == raw_nonstandard(call),
{
    match call {
        Some(c) => crate::ap_subpass::is_nonstandard_call(c),
        None => false,
    }
}

fn diff_abs(a: i64, b: i64) -> (r: i128)
    ensures
        r == abs_diff(a as int, b as int),
{
    let d = a as i128 - b as i128;
    if d < 0 {
        -d
    } else {
        d
    }
}

fn hound_signal(tones: &SymbolTones, config: &ClassifyConfig, freq_mhz: i64, hints: &ToneHints) -> (r: (bool, bool, usize))
    ensures
        (r.0, r.1, r.2 as int) == hound_class(*tones, *config, freq_mhz, *hints),
{
    if !config.lhound || !(config.nqso_progress == 1 || config.nqso_progress == 3) {
        return (false, false, 0);
    }
    let fox = match &hints.idtonefox73 {
        Some(f) => f,
        None => {
            return (false, false, 0);
        },
    };
    let spec = match &hints.idtonespec {
        Some(s) => s,
        None => {
            return (false, false, 0);
        },
    };
    let fdelta = diff_abs(freq_mhz, config.nfqso_mhz);
    if fdelta >= 245000 || fdelta % 60000 >= 3000 {
        return (false, false, 0);
    }
    let best = &tones.best;
    let base = hits(best, fox, 7, 0, 18);
    let r73 = hits(best, spec, 26, 19, 3) + hits(best, spec, 31, 24, 1);
    let rpt = hits(best, spec, 17, 10, 8) + r73;
    let lfoxspecrpt = if base == 0 {
        rpt > 0
    } else {
        18 * rpt > 12 * base
    };
    let mut lfoxstdr73 = false;
    if config.nqso_progress == 3 {
        let fr73 = end_hits_exec(best, fox);
        lfoxstdr73 = if r73 == 0 {
            fr73 > 0
        } else {
            4 * fr73 > 35 * r73
        };
    }
    (lfoxspecrpt, lfoxstdr73, rpt)
}

fn cq_signal_exec(tones: &SymbolTones) -> (r: bool)
    ensures
        r == cq_signal(*tones),
{
    let best = &tones.best;
    let zeros = count_tone(best, 0, 7, 8);
    let score2 = 2 * zeros + (if best[15] == 1 {
        2
    } else {
        0
    }) + (if best[16] <= 1 {
        1
    } else {
        0
    }) + (if best[26] <= 1 {
        1
    } else {
        0
    }) + (if best[32] == 2 || best[32] == 3 {
        1
    } else {
        0
    });
    let mut lcqsignal = tones.s256_peak9 == 5 || score2 > 6;
    if (!lcqsignal && tones.s256_peak9 == 4) || tones.s256_peak9 == 6 {
        if tones.s256_peak == 4 || tones.s256_peak == 6 {
            lcqsignal = true;
        }
    }
    lcqsignal
}

fn qso_signal(
    tones: &SymbolTones,
    config: &ClassifyConfig,
    lapmyc: bool,
    his_set: bool,
    freq_mhz: i64,
    lqsomsgdcd: bool,
    hints: &ToneHints,
    Ghost(mycall): Ghost<Option<&str>>,
    Ghost(hiscall): Ghost<Option<&str>>,
) -> (r: (bool, bool, usize, bool, bool, bool))
    requires
        lapmyc == config_call(mycall) is Some,
        his_set == config_call(hiscall) is Some,
    ensures
        (r.0, r.1, r.2 as int, r.3, r.4, r.5) == qso_class(*tones, *config, mycall, hiscall, freq_mhz, lqsomsgdcd, *hints),
        r.2 <= 10,
{
    let best = &tones.best;
    let dfqso = diff_abs(config.nfqso_mhz, freq_mhz);
    let dftx = diff_abs(config.nftx_mhz, freq_mhz);
    let napwid = config.napwid_mhz as i128;
    if !(!lqsomsgdcd && (dfqso < napwid || dftx < napwid) && lapmyc && his_set && hints.idtone56.len() > 0) {
        return (false, false, 0, false, false, false);
    }
    let q = &hints.idtone56[0];
    let n19 = hits(best, q, 7, 0, 19);
    let n22 = n19 + hits(best, q, 26, 19, 3);
    let ndxt = hits(best, q, 16, 9, 10);
    let mut lqso73 = false;
    let mut lqsorr73 = false;
    let mut lqsorrr = false;
    if dfqso < napwid && (config.nqso_progress == 3 || config.nqso_progress == 4) && hints.idtone56.len() >= 56 {
        let c0 = end_hits_exec(best, &hints.idtone56[55]);
        let c1 = end_hits_exec(best, &hints.idtone56[54]);
        let c2 = end_hits_exec(best, &hints.idtone56[53]);
        let (idx, count): (usize, usize) = if c2 >= c1 && c2 >= c0 {
            (2, c2)
        } else if c1 >= c0 {
            (1, c1)
        } else {
            (0, c0)
        };
        if count > 6 {
            if idx == 0 {
                lqso73 = true;
            } else if idx == 1 {
                lqsorr73 = true;
            } else {
                lqsorrr = true;
            }
        }
    }
    (n19 > 6, n22 > 3, ndxt, lqso73, lqsorr73, lqsorrr)
}

fn dx_signal(
    tones: &SymbolTones,
    config: &ClassifyConfig,
    hisns: bool,
    his_set: bool,
    freq_mhz: i64,
    hints: &ToneHints,
    ndxt: usize,
    Ghost(hiscall): Ghost<Option<&str>>,
) -> (r: (bool, bool))
    requires
        hisns == raw_nonstandard(hiscall),
        his_set == config_call(hiscall) is Some,
    ensures
        r == dx_class(*tones, *config, hiscall, freq_mhz, *hints, ndxt as int),
{
    let best = &tones.best;
    let dfqso = diff_abs(config.nfqso_mhz, freq_mhz);
    let napwid = config.napwid_mhz as i128;
    if hisns && his_set {
        if let Some(cq) = &hints.idtonecqdxcns {
            let ncq = hits(best, cq, 7, 0, 4) + hits(best, cq, 11, 4, 19);
            let ndxt_ns: usize = match &hints.idtonedxcns73 {
                Some(d) => hits(best, d, 11, 4, 19),
                None => 0,
            };
            if dfqso < napwid {
                return (ndxt_ns > 4, ncq > 5);
            } else {
                return (ndxt_ns > 5, ncq > 6);
            }
        }
    }
    (!hisns && ndxt > 3, false)
}

/// The classes of a candidate: the sub-pass count grows with how much of
/// an expected message its tones match (3 for a CQ, 6 for a call to my
/// standard call, 9 for a QSO candidate).
pub fn classify_signal(
    tones: &SymbolTones,
    config: &ClassifyConfig,
    mycall: Option<&str>,
    hiscall: Option<&str>,
    freq_mhz: i64,
    lqsomsgdcd: bool,
    nlasttx: usize,
    hints: &ToneHints,
) -> (r: SignalClassifier)
    ensures
        r == classification(*tones, *config, mycall, hiscall, freq_mhz, lqsomsgdcd, nlasttx, *hints),
{
    let best = &tones.best;
    let lapmyc = crate::ap_subpass::normalized_config_call(mycall).is_some();
    let his_set = crate::ap_subpass::normalized_config_call(hiscall).is_some();
    let nmic: usize = match &hints.idtonemyc {
        Some(m) => hits(best, m, 7, 0, 9),
        None => 0,
    };
    let lcqsignal = cq_signal_exec(tones);
    let lmycsignal = lapmyc && nmic > 2;
    let dfqso = diff_abs(config.nfqso_mhz, freq_mhz);
    let dftx = diff_abs(config.nftx_mhz, freq_mhz);
    let qso = qso_signal(tones, config, lapmyc, his_set, freq_mhz, lqsomsgdcd, hints, Ghost(mycall), Ghost(hiscall));
    let ndxt = qso.2;
    let hisns = is_raw_nonstandard(hiscall);
    let dx = dx_signal(tones, config, hisns, his_set, freq_mhz, hints, ndxt, Ghost(hiscall));
    let lsubptxfreq = lapmyc && dftx < 2000 && !config.lhound && !lqsomsgdcd && (nlasttx == 1 || nlasttx
        == 2);
    let nweak: usize = if config.lft8subpass || config.swl || dfqso < 2000 || lsubptxfreq {
        2
    } else {
        1
    };
    let mut nsubpasses = nweak;
    if lcqsignal {
        nsubpasses = 3;
    }
    let mystd = !is_raw_nonstandard(mycall);
    if lmycsignal && mystd {
        nsubpasses = 6;
    }
    let lqsocandave = lapmyc && ndxt > 2 && nmic > 2 && !lqsomsgdcd && mystd && !hisns && 2 * dfqso
        < config.napwid_mhz as i128;
    if lqsocandave {
        nsubpasses = 9;
    }
    let hound = hound_signal(tones, config, freq_mhz, hints);
    SignalClassifier {
        lcqsignal,
        lmycsignal,
        lqsosig: qso.0,
        lqsosigtype3: qso.1,
        lqsocandave,
        lqso73: qso.3,
        lqsorr73: qso.4,
        lqsorrr: qso.5,
        ldxcsig: dx.0,
        lcqdxcsig: lcqsignal && !hisns && ndxt > 3,
        lcqdxcnssig: dx.1,
        nmic,
        nweak,
        nsubpasses,
        lfoxspecrpt: hound.0,
        lfoxstdr73: hound.1,
        nfoxspecrpt: hound.2,
    }
}

/// The outcome of the sync check of a candidate that passes: whether only
/// the CQ AP types may run, and whether the decode without AP is skipped.
#[derive(Clone, Copy, Debug, PartialEq, Eq)]
pub struct SyncGate {
    pub lapcqonly: bool,
    pub lskipnotap: bool,
}

/// The sync check: a CQ candidate with 4 to 6 matching Costas tones passes
/// for the CQ AP types when enough tones match as first or second choice
/// or its CQ score is high enough; any other candidate needs 7. Below 11
/// sync tones, the decode without AP is skipped when the Costas tones rank
/// low more often than second or third. Away from the QSO frequency, or
/// after the hint stopped, the soft sync check must pass too.
pub open spec fn sync_gate(
    t: SymbolTones,
    lcqcand: bool,
    nsync: usize,
    nsync2: usize,
    nsmax: [usize; 8],
    nfqso_mhz: i64,
    freq_mhz: i64,
    stophint: bool,
    soft_ok: bool,
) -> Option<SyncGate> {
    let score2 = cq_score2(t.best@);
    let cq_tier = lcqcand && (nsync == 4 || nsync == 5 || nsync == 6);
    let cq_fails = if nsync == 4 {
        nsync + nsync2 < 12 && score2 < 14
    } else if nsync == 5 {
        nsync + nsync2 < 12 && score2 < 13
    } else {
        nsync + nsync2 < 11 && score2 < 12
    };
    let dfqso = abs_diff(nfqso_mhz as int, freq_mhz as int);
    if cq_tier && cq_fails {
        None
    } else if !cq_tier && nsync < 7 {
        None
    } else if (dfqso >= 2000 || stophint) && !soft_ok {
        None
    } else {
        Some(
            SyncGate {
                lapcqonly: cq_tier,
                lskipnotap: !cq_tier && nsync < 11 && (nsmax[6] + nsmax[7] > nsmax[1] + nsmax[2] || nsmax[4] + nsmax[5]
                    > nsmax[1] + nsmax[2]),
            },
        )
    }
}

/// The sync check of a candidate; `soft_ok` is the outcome of the soft sync
/// check on its symbol spectra.
pub fn jtdx_sync_gate(
    tones: &SymbolTones,
    lcqcand: bool,
    nsync: usize,
    nsync2: usize,
    nsmax: [usize; 8],
    nfqso_mhz: i64,
    freq_mhz: i64,
    stophint: bool,
    soft_ok: bool,
) -> (r: Option<SyncGate>)
    ensures
        r == sync_gate(*tones, lcqcand, nsync, nsync2, nsmax, nfqso_mhz, freq_mhz, stophint, soft_ok),
{
    let best = &tones.best;
    let zeros = count_tone(best, 0, 7, 8);
    let score2 = 2 * zeros + (if best[15] == 1 {
        2
    } else {
        0
    }) + (if best[16] <= 1 {
        1
    } else {
        0
    }) + (if best[26] <= 1 {
        1
    } else {
        0
    }) + (if best[32] == 2 || best[32] == 3 {
        1
    } else {
        0
    });
    let pair = nsync as u128 + nsync2 as u128;
    let mut lapcqonly = false;
    if lcqcand && nsync == 4 {
        if pair < 12 && score2 < 14 {
            return None;
        }
        lapcqonly = true;
    } else if lcqcand && nsync == 5 {
        if pair < 12 && score2 < 13 {
            return None;
        }
        lapcqonly = true;
    } else if lcqcand && nsync == 6 {
        if pair < 11 && score2 < 12 {
            return None;
        }
        lapcqonly = true;
    } else if nsync < 7 {
        return None;
    }
    let mut lskipnotap = false;
    if !lapcqonly && nsync < 11 {
        let low = nsmax[1] as u128 + nsmax[2] as u128;
        if nsmax[6] as u128 + nsmax[7] as u128 > low || nsmax[4] as u128 + nsmax[5] as u128 > low {
            lskipnotap = true;
        }
    }
    let dfqso = diff_abs(nfqso_mhz, freq_mhz);
    if (dfqso >= 2000 || stophint) && !soft_ok {
        return None;
    }
    Some(SyncGate { lapcqonly, lskipnotap })
}

} // verus!
