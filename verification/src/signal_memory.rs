//! The JTDX decoder's memory of signals from interval to interval: where
//! CQs and calls to me were decoded in the current slot, and the symbol
//! spectra of CQ, my-call and QSO signals kept per interval parity, to be
//! averaged with a repeat of the signal. The spectra are whatever the
//! decoder stores (`T`); frequencies are in millihertz, times in
//! milliseconds.
use vstd::prelude::*;
use crate::ft8b_plan::abs_diff;
use crate::text::{chars_of, has_prefix, trim, trim_chars, words};

verus! {

pub const NUM_CQ_SIG: usize = 20;
pub const NUM_DEC_CQ: usize = 40;
pub const NUM_MYC_SIG: usize = 5;
pub const NUM_DEC_MYC: usize = 25;

/// Where a signal was decoded.
#[derive(Clone, Copy, Debug, PartialEq, Eq)]
pub struct DecodedSignalEntry {
    pub freq_mhz: i64,
    pub xdt_ms: i64,
}

/// A signal's stored spectra with where it was.
#[derive(Clone, Copy, Debug)]
pub struct SignalEntry<T> {
    pub freq_mhz: i64,
    pub xdt_ms: i64,
    pub cs: T,
}

/// The kinds of signal kept.
#[derive(Clone, Copy, Debug, PartialEq, Eq)]
pub enum SignalKind {
    Cq,
    MyCall,
    Qso,
}

/// The signal memory: this slot's decodes and signals (`tmp...`), and the
/// signals kept from the last even and odd intervals.
pub struct SignalMemory<T> {
    pub tmpcqdec: Vec<DecodedSignalEntry>,
    pub tmpmyc: Vec<DecodedSignalEntry>,
    pub evencq: Vec<SignalEntry<T>>,
    pub oddcq: Vec<SignalEntry<T>>,
    pub evenmyc: Vec<SignalEntry<T>>,
    pub oddmyc: Vec<SignalEntry<T>>,
    pub evenqso: Option<SignalEntry<T>>,
    pub oddqso: Option<SignalEntry<T>>,
    pub tmpcqsig: Vec<SignalEntry<T>>,
    pub tmpmycsig: Vec<SignalEntry<T>>,
    pub tmpqsosig: Option<SignalEntry<T>>,
}

/// `dst` with its first entries replaced by those of `src`, extended when
/// `src` is longer.
pub open spec fn overlay<A>(dst: Seq<A>, src: Seq<A>) -> Seq<A> {
    Seq::new(
        if src.len() > dst.len() {
            src.len()
        } else {
            dst.len()
        },
        |i: int|
            if i < src.len() {
                src[i]
            } else {
                dst[i]
            },
    )
}

fn copy_signal_prefix<T: Copy>(dst: &mut Vec<SignalEntry<T>>, src: &Vec<SignalEntry<T>>)
    ensures
        final(dst)@ == overlay(old(dst)@, src@),
{
    let mut idx: usize = 0;
    while idx < src.len()
        invariant
            idx <= src@.len(),
            dst@.len() == if idx > old(dst)@.len() {
                idx as int
            } else {
                old(dst)@.len() as int
            },
            forall|i: int| 0 <= i < dst@.len() ==> #[trigger] dst@[i] == if i < idx {
                src@[i]
            } else {
                old(dst)@[i]
            },
        decreases src@.len() - idx,
    {
        let e = src[idx];
        if idx < dst.len() {
            dst.set(idx, e);
        } else {
            dst.push(e);
        }
        idx = idx + 1;
    }
    proof {
        assert(dst@ =~= overlay(old(dst)@, src@));
    }
}

/// Two places within 2 Hz and 50 ms.
pub open spec fn same_signal(f1: i64, t1: i64, f2: i64, t2: i64) -> bool {
    abs_diff(f1 as int, f2 as int) < 2000 && abs_diff(t1 as int, t2 as int) < 50
}

/// The stored spectra of the first entry at the place.
pub open spec fn first_at<T>(entries: Seq<SignalEntry<T>>, freq_mhz: i64, xdt_ms: i64) -> Option<T> {
    if exists|k: int| 0 <= k < entries.len() && same_signal((#[trigger] entries[k]).freq_mhz, entries[k].xdt_ms, freq_mhz, xdt_ms) {
        let k = choose|k: int|
            0 <= k < entries.len() && same_signal((#[trigger] entries[k]).freq_mhz, entries[k].xdt_ms, freq_mhz, xdt_ms)
                && forall|j: int| 0 <= j < k ==> !same_signal((#[trigger] entries[j]).freq_mhz, entries[j].xdt_ms, freq_mhz, xdt_ms);
        Some(entries[k].cs)
    } else {
        None
    }
}

pub open spec fn one_at<T>(entry: Option<SignalEntry<T>>, freq_mhz: i64, xdt_ms: i64) -> Option<T> {
    match entry {
        Some(e) => if same_signal(e.freq_mhz, e.xdt_ms, freq_mhz, xdt_ms) {
            Some(e.cs)
        } else {
            None
        },
        None => None,
    }
}

fn diff(a: i64, b: i64) -> (r: i128)
    ensures
        r == abs_diff(a as int, b as int),
{
    let d = a as i128 - b as i128;
    if d < 0 {
        -d
    } else {
        d
    }
}

fn find_first<T: Copy>(entries: &Vec<SignalEntry<T>>, freq_mhz: i64, xdt_ms: i64) -> (r: Option<T>)
    ensures
        r == first_at(entries@, freq_mhz, xdt_ms),
{
    let mut k: usize = 0;
    while k < entries.len()
        invariant
            k <= entries@.len(),
            forall|j: int| 0 <= j < k ==> !same_signal((#[trigger] entries@[j]).freq_mhz, entries@[j].xdt_ms, freq_mhz, xdt_ms),
        decreases entries@.len() - k,
    {
        let e = entries[k];
        if diff(e.freq_mhz, freq_mhz) < 2000 && diff(e.xdt_ms, xdt_ms) < 50 {
            proof {
                let v = entries@;
                assert(same_signal(v[k as int].freq_mhz, v[k as int].xdt_ms, freq_mhz, xdt_ms));
                let c = choose|c: int|
                    0 <= c < v.len() && same_signal((#[trigger] v[c]).freq_mhz, v[c].xdt_ms, freq_mhz, xdt_ms) && forall|j: int|
                        0 <= j < c ==> !same_signal((#[trigger] v[j]).freq_mhz, v[j].xdt_ms, freq_mhz, xdt_ms);
                assert(c == k) by {
                    if c < k {
                        assert(!same_signal(v[c].freq_mhz, v[c].xdt_ms, freq_mhz, xdt_ms));
                    } else if c > k {
                        assert(!same_signal(v[k as int].freq_mhz, v[k as int].xdt_ms, freq_mhz, xdt_ms));
                    }
                }
            }
            return Some(e.cs);
        }
        k = k + 1;
    }
    None
}

/// One of the places is within 5 Hz and 50 ms.
pub open spec fn decoded_near(entries: Seq<DecodedSignalEntry>, freq_mhz: i64, xdt_ms: i64) -> bool {
    exists|k: int| 0 <= k < entries.len() && abs_diff((#[trigger] entries[k]).freq_mhz as int, freq_mhz as int) < 5000
        && abs_diff(entries[k].xdt_ms as int, xdt_ms as int) < 50
}

fn any_near(entries: &Vec<DecodedSignalEntry>, freq_mhz: i64, xdt_ms: i64) -> (r: bool)
    ensures
        r == decoded_near(entries@, freq_mhz, xdt_ms),
{
    let mut k: usize = 0;
    while k < entries.len()
        invariant
            k <= entries@.len(),
            forall|j: int| 0 <= j < k ==> !(abs_diff((#[trigger] entries@[j]).freq_mhz as int, freq_mhz as int) < 5000
                && abs_diff(entries@[j].xdt_ms as int, xdt_ms as int) < 50),
        decreases entries@.len() - k,
    {
        let e = entries[k];
        if diff(e.freq_mhz, freq_mhz) < 5000 && diff(e.xdt_ms, xdt_ms) < 50 {
            proof {
                assert(entries@[k as int] == e);
            }
            return true;
        }
        k = k + 1;
    }
    false
}

impl<T: Copy> SignalMemory<T> {
    /// An empty memory.
    pub fn new() -> (r: SignalMemory<T>)
        ensures
            r.tmpcqdec@.len() == 0 && r.tmpmyc@.len() == 0,
            r.evencq@.len() == 0 && r.oddcq@.len() == 0 && r.evenmyc@.len() == 0 && r.oddmyc@.len() == 0,
            r.evenqso is None && r.oddqso is None,
            r.tmpcqsig@.len() == 0 && r.tmpmycsig@.len() == 0 && r.tmpqsosig is None,
    {
        SignalMemory {
            tmpcqdec: Vec::new(),
            tmpmyc: Vec::new(),
            evencq: Vec::new(),
            oddcq: Vec::new(),
            evenmyc: Vec::new(),
            oddmyc: Vec::new(),
            evenqso: None,
            oddqso: None,
            tmpcqsig: Vec::new(),
            tmpmycsig: Vec::new(),
            tmpqsosig: None,
        }
    }

    /// A new slot: nothing decoded or kept in it yet; what the last
    /// intervals kept stays.
    pub fn begin_slot(&mut self)
        ensures
            final(self).tmpcqsig@.len() == 0 && final(self).tmpmycsig@.len() == 0 && final(self).tmpqsosig is None,
            final(self).tmpcqdec@.len() == 0 && final(self).tmpmyc@.len() == 0,
            final(self).evencq@ == old(self).evencq@ && final(self).oddcq@ == old(self).oddcq@,
            final(self).evenmyc@ == old(self).evenmyc@ && final(self).oddmyc@ == old(self).oddmyc@,
            final(self).evenqso == old(self).evenqso && final(self).oddqso == old(self).oddqso,
    {
        self.tmpcqsig.clear();
        self.tmpmycsig.clear();
        self.tmpqsosig = None;
        self.tmpcqdec.clear();
        self.tmpmyc.clear();
    }

    /// The end of a slot: an even or odd interval keeps this slot's CQ
    /// signals, and with my call set its my-call signals, and, unless the
    /// QSO message was decoded, its QSO signal; the slot's signals are
    /// then forgotten.
    pub fn finish_slot(&mut self, levenint: bool, loddint: bool, lapmyc: bool, lqsomsgdcd: bool)
        ensures
            final(self).evencq@ == if levenint {
                overlay(old(self).evencq@, old(self).tmpcqsig@)
            } else {
                old(self).evencq@
            },
            final(self).oddcq@ == if !levenint && loddint {
                overlay(old(self).oddcq@, old(self).tmpcqsig@)
            } else {
                old(self).oddcq@
            },
            final(self).evenmyc@ == if levenint && lapmyc {
                overlay(old(self).evenmyc@, old(self).tmpmycsig@)
            } else {
                old(self).evenmyc@
            },
            final(self).oddmyc@ == if !levenint && loddint && lapmyc {
                overlay(old(self).oddmyc@, old(self).tmpmycsig@)
            } else {
                old(self).oddmyc@
            },
            final(self).evenqso == if levenint && lapmyc && !lqsomsgdcd && old(self).tmpqsosig is Some {
                old(self).tmpqsosig
            } else {
                old(self).evenqso
            },
            final(self).oddqso == if !levenint && loddint && lapmyc && !lqsomsgdcd && old(self).tmpqsosig is Some {
                old(self).tmpqsosig
            } else {
                old(self).oddqso
            },
            final(self).tmpcqsig@.len() == 0 && final(self).tmpmycsig@.len() == 0 && final(self).tmpqsosig is None,
            final(self).tmpcqdec@ == old(self).tmpcqdec@ && final(self).tmpmyc@ == old(self).tmpmyc@,
    {
        if levenint {
            copy_signal_prefix(&mut self.evencq, &self.tmpcqsig);
            if lapmyc {
                copy_signal_prefix(&mut self.evenmyc, &self.tmpmycsig);
                if !lqsomsgdcd && self.tmpqsosig.is_some() {
                    self.evenqso = self.tmpqsosig;
                }
            }
        } else if loddint {
            copy_signal_prefix(&mut self.oddcq, &self.tmpcqsig);
            if lapmyc {
                copy_signal_prefix(&mut self.oddmyc, &self.tmpmycsig);
                if !lqsomsgdcd && self.tmpqsosig.is_some() {
                    self.oddqso = self.tmpqsosig;
                }
            }
        }
        self.tmpcqsig.clear();
        self.tmpmycsig.clear();
        self.tmpqsosig = None;
    }

    /// The spectra kept for a signal of the kind at the place, from the
    /// last interval of this one's parity.
    pub open spec fn old_signal(&self, kind: SignalKind, levenint: bool, loddint: bool, freq_mhz: i64, xdt_ms: i64) -> Option<T> {
        match kind {
            SignalKind::Cq => if levenint {
                first_at(self.evencq@, freq_mhz, xdt_ms)
            } else if loddint {
                first_at(self.oddcq@, freq_mhz, xdt_ms)
            } else {
                None
            },
            SignalKind::MyCall => if levenint {
                first_at(self.evenmyc@, freq_mhz, xdt_ms)
            } else if loddint {
                first_at(self.oddmyc@, freq_mhz, xdt_ms)
            } else {
                None
            },
            SignalKind::Qso => if levenint {
                one_at(self.evenqso, freq_mhz, xdt_ms)
            } else if loddint {
                one_at(self.oddqso, freq_mhz, xdt_ms)
            } else {
                None
            },
        }
    }

    pub fn find_old(&self, kind: SignalKind, levenint: bool, loddint: bool, freq_mhz: i64, xdt_ms: i64) -> (r: Option<T>)
        ensures
            r == self.old_signal(kind, levenint, loddint, freq_mhz, xdt_ms),
    {
        match kind {
            SignalKind::Cq => if levenint {
                find_first(&self.evencq, freq_mhz, xdt_ms)
            } else if loddint {
                find_first(&self.oddcq, freq_mhz, xdt_ms)
            } else {
                None
            },
            SignalKind::MyCall => if levenint {
                find_first(&self.evenmyc, freq_mhz, xdt_ms)
            } else if loddint {
                find_first(&self.oddmyc, freq_mhz, xdt_ms)
            } else {
                None
            },
            SignalKind::Qso => {
                let entry = if levenint {
                    self.evenqso
                } else if loddint {
                    self.oddqso
                } else {
                    return None;
                };
                match entry {
                    Some(e) => if diff(e.freq_mhz, freq_mhz) < 2000 && diff(e.xdt_ms, xdt_ms) < 50 {
                        Some(e.cs)
                    } else {
                        None
                    },
                    None => None,
                }
            },
        }
    }

    /// A CQ or a call to me was decoded within 5 Hz and 50 ms in this slot.
    pub open spec fn decoded_here(&self, kind: SignalKind, freq_mhz: i64, xdt_ms: i64) -> bool {
        match kind {
            SignalKind::Cq => decoded_near(self.tmpcqdec@, freq_mhz, xdt_ms),
            SignalKind::MyCall => decoded_near(self.tmpmyc@, freq_mhz, xdt_ms),
            SignalKind::Qso => false,
        }
    }

    pub fn has_decoded_tmp(&self, kind: SignalKind, freq_mhz: i64, xdt_ms: i64) -> (r: bool)
        ensures
            r == self.decoded_here(kind, freq_mhz, xdt_ms),
    {
        match kind {
            SignalKind::Cq => any_near(&self.tmpcqdec, freq_mhz, xdt_ms),
            SignalKind::MyCall => any_near(&self.tmpmyc, freq_mhz, xdt_ms),
            SignalKind::Qso => false,
        }
    }

    /// The slot's decodes, as places: a CQ (up to 40), and a message that
    /// opens with my standard call (up to 25).
    pub fn remember_decoded_message(&mut self, msg37: &str, freq_mhz: i64, xdt_ms: i64, mycall: &str, lmycallstd: bool)
        ensures
            final(self).tmpcqdec@ == if has_prefix(trim(msg37@), seq!['C', 'Q', ' ']) && old(self).tmpcqdec@.len() < NUM_DEC_CQ {
                old(self).tmpcqdec@.push(DecodedSignalEntry { freq_mhz, xdt_ms })
            } else {
                old(self).tmpcqdec@
            },
            final(self).tmpmyc@ == if lmycallstd && trim(mycall@).len() > 0 && words(trim(msg37@)).len() > 0 && words(
                trim(msg37@),
            )[0] == trim(mycall@) && old(self).tmpmyc@.len() < NUM_DEC_MYC {
                old(self).tmpmyc@.push(DecodedSignalEntry { freq_mhz, xdt_ms })
            } else {
                old(self).tmpmyc@
            },
            final(self).evencq@ == old(self).evencq@ && final(self).oddcq@ == old(self).oddcq@,
            final(self).evenmyc@ == old(self).evenmyc@ && final(self).oddmyc@ == old(self).oddmyc@,
            final(self).evenqso == old(self).evenqso && final(self).oddqso == old(self).oddqso,
            final(self).tmpcqsig@ == old(self).tmpcqsig@ && final(self).tmpmycsig@ == old(self).tmpmycsig@,
            final(self).tmpqsosig == old(self).tmpqsosig,
    {
        let mc = chars_of(msg37);
        let m = trim_chars(&mc);
        proof {
            assert(['C', 'Q', ' ']@ == seq!['C', 'Q', ' ']);
        }
        if crate::text::starts_with(&m, &['C', 'Q', ' ']) && self.tmpcqdec.len() < NUM_DEC_CQ {
            self.tmpcqdec.push(DecodedSignalEntry { freq_mhz, xdt_ms });
        }
        let cc = chars_of(mycall);
        let c = trim_chars(&cc);
        if lmycallstd && c.len() > 0 && self.tmpmyc.len() < NUM_DEC_MYC {
            let ws = crate::text::split_ws(&m);
            if ws.len() > 0 && crate::text::eq_chars(&ws[0], &c) {
                self.tmpmyc.push(DecodedSignalEntry { freq_mhz, xdt_ms });
            }
        }
    }

    /// A signal's spectra kept for this slot: up to 20 CQ signals, up to 5
    /// my-call signals, the last QSO signal.
    pub fn remember_tmp(&mut self, kind: SignalKind, freq_mhz: i64, xdt_ms: i64, cs: T)
        ensures
            final(self).tmpcqsig@ == if kind == SignalKind::Cq && old(self).tmpcqsig@.len() < NUM_CQ_SIG {
                old(self).tmpcqsig@.push(SignalEntry { freq_mhz, xdt_ms, cs })
            } else {
                old(self).tmpcqsig@
            },
            final(self).tmpmycsig@ == if kind == SignalKind::MyCall && old(self).tmpmycsig@.len() < NUM_MYC_SIG {
                old(self).tmpmycsig@.push(SignalEntry { freq_mhz, xdt_ms, cs })
            } else {
                old(self).tmpmycsig@
            },
            final(self).tmpqsosig == if kind == SignalKind::Qso {
                Some(SignalEntry { freq_mhz, xdt_ms, cs })
            } else {
                old(self).tmpqsosig
            },
            final(self).evencq@ == old(self).evencq@ && final(self).oddcq@ == old(self).oddcq@,
            final(self).evenmyc@ == old(self).evenmyc@ && final(self).oddmyc@ == old(self).oddmyc@,
            final(self).evenqso == old(self).evenqso && final(self).oddqso == old(self).oddqso,
            final(self).tmpcqdec@ == old(self).tmpcqdec@ && final(self).tmpmyc@ == old(self).tmpmyc@,
    {
        let entry = SignalEntry { freq_mhz, xdt_ms, cs };
        match kind {
            SignalKind::Cq => {
                if self.tmpcqsig.len() < NUM_CQ_SIG {
                    self.tmpcqsig.push(entry);
                }
            },
            SignalKind::MyCall => {
                if self.tmpmycsig.len() < NUM_MYC_SIG {
                    self.tmpmycsig.push(entry);
                }
            },
            SignalKind::Qso => {
                self.tmpqsosig = Some(entry);
            },
        }
    }
}

/// A CQ signal kept in an even interval is found again, at the same place,
/// in the next even interval: some spectra are kept for it.
pub proof fn lemma_kept_cq_found_next_even<T>(kept: Seq<SignalEntry<T>>, tmp: Seq<SignalEntry<T>>, k: int)
    requires
        0 <= k < tmp.len(),
    ensures
        first_at(overlay(kept, tmp), tmp[k].freq_mhz, tmp[k].xdt_ms) is Some,
{
    let o = overlay(kept, tmp);
    assert(o[k] == tmp[k]);
    assert(same_signal(o[k].freq_mhz, o[k].xdt_ms, tmp[k].freq_mhz, tmp[k].xdt_ms));
}

} // verus!
