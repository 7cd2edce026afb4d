//! The a-priori (AP) passes of the WSJT-X candidate decoder: how many
//! passes run, which AP type and soft metrics each uses, and which of the
//! 174 codeword bits a pass fixes, and to which sign. Frequencies are in
//! millihertz.
use vstd::prelude::*;
use crate::ft8b_plan::abs_diff;
use crate::text::{has_prefix, occurs_at, trim};

verus! {

/// The CQ message bits of the contest modes.
pub const MCQ: [i8; 29] = [
    0, 0, 0, 0, 0, 0, 0, 0, 0, 0, 0, 0, 0, 0, 0, 0, 0, 0, 0, 0, 0, 0, 0, 0, 0, 0, 1, 0, 0,
];
pub const MCQRU: [i8; 29] = [
    0, 0, 0, 0, 0, 0, 0, 0, 0, 0, 0, 0, 0, 0, 0, 0, 0, 1, 0, 1, 1, 1, 1, 0, 0, 1, 1, 0, 0,
];
pub const MCQFD: [i8; 29] = [
    0, 0, 0, 0, 0, 0, 0, 0, 0, 0, 0, 0, 0, 0, 0, 0, 0, 1, 0, 0, 1, 0, 0, 1, 0, 0, 0, 1, 0,
];
pub const MCQTEST: [i8; 29] = [
    0, 0, 0, 0, 0, 0, 0, 0, 0, 1, 1, 0, 0, 0, 0, 1, 0, 1, 0, 1, 1, 1, 1, 1, 1, 0, 0, 1, 0,
];
pub const MCQWW: [i8; 29] = [
    0, 0, 0, 0, 0, 0, 0, 0, 0, 0, 0, 0, 0, 0, 0, 0, 0, 1, 1, 0, 0, 1, 1, 0, 1, 1, 1, 1, 0,
];
/// The report-field bits of `RRR`, `73` and `RR73`.
pub const MRRR: [i8; 19] = [0, 1, 1, 1, 1, 1, 1, 0, 1, 0, 0, 1, 0, 0, 1, 0, 0, 0, 1];
pub const M73: [i8; 19] = [0, 1, 1, 1, 1, 1, 1, 0, 1, 0, 0, 1, 0, 1, 0, 0, 0, 0, 1];
pub const MRR73: [i8; 19] = [0, 1, 1, 1, 1, 1, 1, 0, 0, 1, 1, 1, 0, 1, 0, 1, 0, 0, 1];

/// One write of an AP plan: the 1-based bit, and the sign it is fixed to,
/// or none when the bit is only masked.
pub type ApWrite = (int, Option<int>);

/// The bits and signs an AP pass fixes: `mask[i]` when bit `i` is fixed,
/// and `sign[i]`, when not 0, the sign its soft value is set to.
pub struct ApSigns {
    pub mask: [bool; 174],
    pub sign: [i8; 174],
}

/// Writes of signs from position `start` on.
pub open spec fn signs_from(start: int, s: Seq<i8>) -> Seq<ApWrite> {
    Seq::new(s.len(), |k: int| (start + k, Some(s[k] as int)))
}

/// Writes of 0/1 bits as signs from position `start` on.
pub open spec fn bits_from(start: int, b: Seq<i8>) -> Seq<ApWrite> {
    Seq::new(
        b.len(),
        |k: int|
            (
                start + k,
                Some(
                    if b[k] == 0 {
                        -1int
                    } else {
                        1int
                    },
                ),
            ),
    )
}

/// Writes of one sign over positions `a` to `b`.
pub open spec fn range_sign(a: int, b: int, sign: int) -> Seq<ApWrite> {
    Seq::new((b - a + 1) as nat, |k: int| (a + k, Some(sign)))
}

/// Masks over positions `a` to `b`.
pub open spec fn mask_range(a: int, b: int) -> Seq<ApWrite> {
    Seq::new((b - a + 1) as nat, |k: int| (a + k, None::<int>))
}

/// The `i3` field set to 001.
pub open spec fn i3_001() -> Seq<ApWrite> {
    seq![(75int, Some(-1int)), (76int, Some(-1int)), (77int, Some(1int))]
}

/// The state of mask and signs after the writes, applied in order: a
/// write inside the codeword masks its bit and, with a sign, sets it to
/// `+1` for a positive sign and `-1` otherwise.
pub open spec fn applied(writes: Seq<ApWrite>) -> (Seq<bool>, Seq<i8>)
    decreases writes.len(),
{
    if writes.len() == 0 {
        (Seq::new(174, |i: int| false), Seq::new(174, |i: int| 0i8))
    } else {
        let (m, s) = applied(writes.drop_last());
        let (idx, sign) = writes.last();
        if 1 <= idx <= 174 {
            (
                m.update(idx - 1, true),
                match sign {
                    Some(v) => s.update(
                        idx - 1,
                        if v > 0 {
                            1i8
                        } else {
                            -1i8
                        },
                    ),
                    None => s,
                },
            )
        } else {
            (m, s)
        }
    }
}

/// The CQ pattern of a contest mode.
pub open spec fn cq_pattern(ncontest: usize) -> Option<Seq<i8>> {
    if ncontest == 0 || ncontest == 7 {
        Some(MCQ@)
    } else if ncontest == 1 || ncontest == 2 || ncontest == 8 {
        Some(MCQTEST@)
    } else if ncontest == 3 {
        Some(MCQFD@)
    } else if ncontest == 4 {
        Some(MCQRU@)
    } else if ncontest == 5 {
        Some(MCQWW@)
    } else {
        None
    }
}

/// The writes of AP type `iaptype` in contest mode `ncontest`, from the AP
/// symbols of the calls (`apsym`) and the contest's hashed calls
/// (`aph10`); none when the type does not apply to the mode.
pub open spec fn ap_writes(ncontest: usize, iaptype: usize, apsym: Seq<i8>, aph10: Seq<i8>) -> Option<Seq<ApWrite>> {
    if iaptype == 1 {
        match cq_pattern(ncontest) {
            Some(p) => Some(bits_from(1, p) + i3_001()),
            None => None,
        }
    } else if iaptype == 2 {
        if ncontest == 0 || ncontest == 1 || ncontest == 5 || ncontest == 8 {
            Some(signs_from(1, apsym.take(29)) + i3_001())
        } else if ncontest == 2 {
            Some(signs_from(1, apsym.take(28)) + seq![(72int, Some(-1int)), (73int, Some(1int)), (74int, Some(-1int))] + range_sign(75, 77, -1))
        } else if ncontest == 3 {
            Some(signs_from(1, apsym.take(28)) + range_sign(75, 77, -1))
        } else if ncontest == 4 {
            Some(signs_from(2, apsym.take(28)) + seq![(75int, Some(-1int))] + range_sign(76, 77, 1))
        } else if ncontest == 7 {
            Some(signs_from(29, apsym.take(28)) + signs_from(57, aph10) + range_sign(72, 73, -1) + seq![(74int, Some(1int))] + range_sign(75, 77, -1))
        } else {
            None
        }
    } else if iaptype == 3 {
        if ncontest == 0 || ncontest == 1 || ncontest == 2 || ncontest == 5 || ncontest == 7 || ncontest == 8 {
            Some(signs_from(1, apsym) + i3_001())
        } else if ncontest == 3 {
            Some(signs_from(1, apsym.take(28)) + signs_from(29, apsym.subrange(29, 57)) + mask_range(72, 74) + range_sign(75, 77, -1))
        } else if ncontest == 4 {
            Some(signs_from(2, apsym.take(28)) + signs_from(30, apsym.subrange(29, 57)) + seq![(75int, Some(-1int))] + range_sign(76, 77, 1))
        } else {
            None
        }
    } else if iaptype == 4 || iaptype == 5 || iaptype == 6 {
        if iaptype == 5 && ncontest == 7 {
            None
        } else if ncontest <= 5 || ncontest == 8 || (ncontest == 7 && iaptype == 6) {
            let tail = if iaptype == 4 {
                MRRR@
            } else if iaptype == 5 {
                M73@
            } else {
                MRR73@
            };
            Some(mask_range(1, 77) + signs_from(1, apsym) + bits_from(59, tail))
        } else if ncontest == 7 && iaptype == 4 {
            Some(signs_from(1, apsym.take(28)) + signs_from(57, aph10) + range_sign(72, 73, -1) + seq![(74int, Some(1int))] + range_sign(75, 77, -1))
        } else {
            None
        }
    } else {
        None
    }
}

/// What the AP pass reads of the configuration.
#[derive(Clone, Copy, Debug, PartialEq, Eq)]
pub struct WsjtApOptions {
    pub ncontest: usize,
    pub nfqso_mhz: i64,
    pub nftx_mhz: i64,
    pub napwid_mhz: i64,
    pub apsym: [i8; 58],
    pub aph10: [i8; 10],
}

/// Whether the AP pass runs for a candidate at `f1_mhz`, and what it
/// fixes: never in contest mode 6, nor above 950 Hz in mode 7; from type 3
/// on, outside the modes above 5, only within the AP width of the QSO or
/// transmit frequency; not without my call's symbols from type 2 on, his
/// from type 3 on, or the hashed calls in mode 7.
pub open spec fn ap_plan(ap: WsjtApOptions, iaptype: usize, f1_mhz: i64) -> Option<Seq<ApWrite>> {
    if ap.ncontest == 6 {
        None
    } else if ap.ncontest == 7 && f1_mhz > 950000 {
        None
    } else if ap.ncontest <= 5 && iaptype >= 3 && abs_diff(ap.nfqso_mhz as int, f1_mhz as int) > ap.napwid_mhz
        && abs_diff(ap.nftx_mhz as int, f1_mhz as int) > ap.napwid_mhz {
        None
    } else if iaptype >= 2 && ap.apsym[0] > 1 {
        None
    } else if ap.ncontest == 7 && iaptype >= 2 && ap.aph10[0] > 1 {
        None
    } else if iaptype >= 3 && ap.apsym[29] > 1 {
        None
    } else {
        ap_writes(ap.ncontest, iaptype, ap.apsym@, ap.aph10@)
    }
}

fn push_signs(w: &mut Vec<(usize, Option<i8>)>, start: usize, s: &[i8])
    requires
        start + s@.len() <= 1000,
    ensures
        wv(final(w)@) == wv(old(w)@) + signs_from(start as int, s@),
{
    let ghost w0 = wv(w@);
    let mut k: usize = 0;
    while k < s.len()
        invariant
            k <= s@.len(),
            start + s@.len() <= 1000,
            wv(w@) == w0 + signs_from(start as int, s@.take(k as int)),
        decreases s@.len() - k,
    {
        let ghost prev = w@;
        w.push((start + k, Some(s[k])));
        proof {
            let xv: ApWrite = ((start + k) as int, Some(s@[k as int] as int));
            assert(wv(w@) =~= wv(prev).push(xv));
            assert(signs_from(start as int, s@.take(k + 1)) =~= signs_from(start as int, s@.take(k as int)).push(xv));
            assert(wv(w@) =~= w0 + signs_from(start as int, s@.take(k + 1)));
        }
        k = k + 1;
    }
    proof {
        assert(s@.take(s@.len() as int) =~= s@);
    }
}

fn push_bits(w: &mut Vec<(usize, Option<i8>)>, start: usize, b: &[i8])
    requires
        start + b@.len() <= 1000,
    ensures
        wv(final(w)@) == wv(old(w)@) + bits_from(start as int, b@),
{
    let ghost w0 = wv(w@);
    let mut k: usize = 0;
    while k < b.len()
        invariant
            k <= b@.len(),
            start + b@.len() <= 1000,
            wv(w@) == w0 + bits_from(start as int, b@.take(k as int)),
        decreases b@.len() - k,
    {
        let sign: i8 = if b[k] == 0 {
            -1
        } else {
            1
        };
        let ghost prev = w@;
        w.push((start + k, Some(sign)));
        proof {
            let xv: ApWrite = ((start + k) as int, Some(sign as int));
            assert(wv(w@) =~= wv(prev).push(xv));
            assert(bits_from(start as int, b@.take(k + 1)) =~= bits_from(start as int, b@.take(k as int)).push(xv));
            assert(wv(w@) =~= w0 + bits_from(start as int, b@.take(k + 1)));
        }
        k = k + 1;
    }
    proof {
        assert(b@.take(b@.len() as int) =~= b@);
    }
}

fn push_range(w: &mut Vec<(usize, Option<i8>)>, a: usize, b: usize, sign: Option<i8>)
    requires
        a <= b + 1,
        b <= 1000,
    ensures
        wv(final(w)@) == wv(old(w)@) + match sign {
            Some(v) => range_sign(a as int, b as int, v as int),
            None => mask_range(a as int, b as int),
        },
{
    let ghost w0 = wv(w@);
    let ghost target = match sign {
        Some(v) => range_sign(a as int, b as int, v as int),
        None => mask_range(a as int, b as int),
    };
    let mut i = a;
    while i <= b
        invariant
            a <= i <= b + 1,
            b <= 1000,
            target.len() == b - a + 1,
            forall|k: int| 0 <= k < target.len() ==> #[trigger] target[k] == (a + k, match sign {
                Some(v) => Some(v as int),
                None => None::<int>,
            }),
            wv(w@) == w0 + target.take(i - a),
        decreases b + 1 - i,
    {
        let ghost prev = w@;
        w.push((i, sign));
        proof {
            let xv: ApWrite = (i as int, match sign {
                Some(v) => Some(v as int),
                None => None::<int>,
            });
            assert(wv(w@) =~= wv(prev).push(xv));
            assert(target[i - a] == xv);
            assert(target.take(i + 1 - a) =~= target.take(i - a).push(xv));
            assert(wv(w@) =~= w0 + target.take(i + 1 - a));
        }
        i = i + 1;
    }
    proof {
        assert(target.take(b + 1 - a) =~= target);
    }
}

/// The writes as plain values.
pub open spec fn wv(w: Seq<(usize, Option<i8>)>) -> Seq<ApWrite> {
    w.map_values(|x: (usize, Option<i8>)| (x.0 as int, match x.1 {
        Some(v) => Some(v as int),
        None => None::<int>,
    }))
}

fn push_i3_001(w: &mut Vec<(usize, Option<i8>)>)
    ensures
        wv(final(w)@) == wv(old(w)@) + i3_001(),
{
    let ghost w0 = wv(w@);
    w.push((75, Some(-1)));
    w.push((76, Some(-1)));
    w.push((77, Some(1)));
    proof {
        assert(wv(w@) =~= w0 + i3_001());
    }
}

fn push_one(w: &mut Vec<(usize, Option<i8>)>, idx: usize, sign: i8)
    ensures
        wv(final(w)@) == wv(old(w)@) + seq![(idx as int, Some(sign as int))],
{
    let ghost w0 = wv(w@);
    w.push((idx, Some(sign)));
    proof {
        assert(wv(w@) =~= w0 + seq![(idx as int, Some(sign as int))]);
    }
}

fn head(s: &[i8], n: usize) -> (r: Vec<i8>)
    requires
        n <= s@.len(),
    ensures
        r@ == s@.take(n as int),
{
    let mut r: Vec<i8> = Vec::new();
    let mut k: usize = 0;
    while k < n
        invariant
            k <= n <= s@.len(),
            r@ == s@.take(k as int),
        decreases n - k,
    {
        r.push(s[k]);
        proof {
            assert(r@ =~= s@.take(k + 1));
        }
        k = k + 1;
    }
    r
}

fn middle(s: &[i8], a: usize, b: usize) -> (r: Vec<i8>)
    requires
        a <= b <= s@.len(),
    ensures
        r@ == s@.subrange(a as int, b as int),
{
    let mut r: Vec<i8> = Vec::new();
    let mut k: usize = a;
    while k < b
        invariant
            a <= k <= b <= s@.len(),
            r@ == s@.subrange(a as int, k as int),
        decreases b - k,
    {
        r.push(s[k]);
        proof {
            assert(r@ =~= s@.subrange(a as int, k + 1));
        }
        k = k + 1;
    }
    r
}

fn writes_for(ncontest: usize, iaptype: usize, apsym: &[i8; 58], aph10: &[i8; 10]) -> (r: Option<Vec<(usize, Option<i8>)>>)
    ensures
        match r {
            Some(w) => ap_writes(ncontest, iaptype, apsym@, aph10@) == Some(wv(w@)),
            None => ap_writes(ncontest, iaptype, apsym@, aph10@) is None,
        },
{
    let mut w: Vec<(usize, Option<i8>)> = Vec::new();
    proof {
        assert(wv(w@) =~= Seq::<ApWrite>::empty());
    }
    let sym28 = head(apsym, 28);
    let sym29 = head(apsym, 29);
    let sym_dx = middle(apsym, 29, 57);
    if iaptype == 1 {
        if ncontest == 0 || ncontest == 7 {
            push_bits(&mut w, 1, &MCQ);
        } else if ncontest == 1 || ncontest == 2 || ncontest == 8 {
            push_bits(&mut w, 1, &MCQTEST);
        } else if ncontest == 3 {
            push_bits(&mut w, 1, &MCQFD);
        } else if ncontest == 4 {
            push_bits(&mut w, 1, &MCQRU);
        } else if ncontest == 5 {
            push_bits(&mut w, 1, &MCQWW);
        } else {
            return None;
        }
        push_i3_001(&mut w);
        Some(w)
    } else if iaptype == 2 {
        if ncontest == 0 || ncontest == 1 || ncontest == 5 || ncontest == 8 {
            push_signs(&mut w, 1, &sym29);
            push_i3_001(&mut w);
        } else if ncontest == 2 {
            push_signs(&mut w, 1, &sym28);
            push_one(&mut w, 72, -1);
            push_one(&mut w, 73, 1);
            push_one(&mut w, 74, -1);
            push_range(&mut w, 75, 77, Some(-1));
            proof {
                assert(seq![(72int, Some(-1int))] + seq![(73int, Some(1int))] + seq![(74int, Some(-1int))] =~= seq![
                    (72int, Some(-1int)),
                    (73int, Some(1int)),
                    (74int, Some(-1int)),
                ]);
            }
        } else if ncontest == 3 {
            push_signs(&mut w, 1, &sym28);
            push_range(&mut w, 75, 77, Some(-1));
        } else if ncontest == 4 {
            push_signs(&mut w, 2, &sym28);
            push_one(&mut w, 75, -1);
            push_range(&mut w, 76, 77, Some(1));
        } else if ncontest == 7 {
            push_signs(&mut w, 29, &sym28);
            push_signs(&mut w, 57, aph10);
            push_range(&mut w, 72, 73, Some(-1));
            push_one(&mut w, 74, 1);
            push_range(&mut w, 75, 77, Some(-1));
        } else {
            return None;
        }
        Some(w)
    } else if iaptype == 3 {
        if ncontest == 0 || ncontest == 1 || ncontest == 2 || ncontest == 5 || ncontest == 7 || ncontest == 8 {
            push_signs(&mut w, 1, apsym);
            push_i3_001(&mut w);
        } else if ncontest == 3 {
            push_signs(&mut w, 1, &sym28);
            push_signs(&mut w, 29, &sym_dx);
            push_range(&mut w, 72, 74, None);
            push_range(&mut w, 75, 77, Some(-1));
        } else if ncontest == 4 {
            push_signs(&mut w, 2, &sym28);
            push_signs(&mut w, 30, &sym_dx);
            push_one(&mut w, 75, -1);
            push_range(&mut w, 76, 77, Some(1));
        } else {
            return None;
        }
        Some(w)
    } else if iaptype == 4 || iaptype == 5 || iaptype == 6 {
        if iaptype == 5 && ncontest == 7 {
            return None;
        }
        if ncontest <= 5 || ncontest == 8 || (ncontest == 7 && iaptype == 6) {
            push_range(&mut w, 1, 77, None);
            push_signs(&mut w, 1, apsym);
            if iaptype == 4 {
                push_bits(&mut w, 59, &MRRR);
            } else if iaptype == 5 {
                push_bits(&mut w, 59, &M73);
            } else {
                push_bits(&mut w, 59, &MRR73);
            }
            Some(w)
        } else if ncontest == 7 && iaptype == 4 {
            push_signs(&mut w, 1, &sym28);
            push_signs(&mut w, 57, aph10);
            push_range(&mut w, 72, 73, Some(-1));
            push_one(&mut w, 74, 1);
            push_range(&mut w, 75, 77, Some(-1));
            Some(w)
        } else {
            None
        }
    } else {
        None
    }
}

fn apply_writes(w: &Vec<(usize, Option<i8>)>) -> (r: ApSigns)
    ensures
        (r.mask@, r.sign@) == applied(wv(w@)),
{
    let mut mask = [false; 174];
    let mut sign = [0i8; 174];
    let mut k: usize = 0;
    proof {
        assert(wv(w@).take(0) =~= Seq::<ApWrite>::empty());
        assert(mask@ =~= Seq::new(174, |i: int| false));
        assert(sign@ =~= Seq::new(174, |i: int| 0i8));
    }
    while k < w.len()
        invariant
            k <= w@.len(),
            (mask@, sign@) == applied(wv(w@).take(k as int)),
        decreases w@.len() - k,
    {
        let (idx, s) = w[k];
        proof {
            assert(wv(w@).take(k + 1).drop_last() =~= wv(w@).take(k as int));
            assert(applied(wv(w@).take(k as int)).0.len() == 174) by {
                lemma_applied_len(wv(w@).take(k as int));
            }
        }
        if 1 <= idx && idx <= 174 {
            mask[idx - 1] = true;
            match s {
                Some(v) => {
                    sign[idx - 1] = if v > 0 {
                        1
                    } else {
                        -1
                    };
                },
                None => {},
            }
            proof {
                lemma_applied_len(wv(w@).take(k as int));
                let (m0, s0) = applied(wv(w@).take(k as int));
                assert(mask@ =~= m0.update(idx - 1, true));
                match s {
                    Some(v) => {
                        assert(sign@ =~= s0.update(idx - 1, if v > 0 { 1i8 } else { -1i8 }));
                    },
                    None => {
                        assert(sign@ =~= s0);
                    },
                }
            }
        }
        k = k + 1;
    }
    proof {
        assert(wv(w@).take(w@.len() as int) =~= wv(w@));
    }
    ApSigns { mask, sign }
}

proof fn lemma_applied_len(writes: Seq<ApWrite>)
    ensures
        applied(writes).0.len() == 174,
        applied(writes).1.len() == 174,
    decreases writes.len(),
{
    if writes.len() > 0 {
        lemma_applied_len(writes.drop_last());
    }
}

fn diff(a: i64, b: i64) -> (r: i128)
    ensures
        r == abs_diff(a as int, b as int),
{
    let d = a as i128 - b as i128;
    if d < 0 {
        -d
    } else {
        d
    }
}

/// The bits the AP pass of type `iaptype` fixes for a candidate at
/// `f1_mhz`, with their signs; none when the pass does not run.
pub fn apply_wsjt_ap_mask(ap: &WsjtApOptions, iaptype: usize, f1_mhz: i64) -> (r: Option<ApSigns>)
    ensures
        match r {
            Some(p) => match ap_plan(*ap, iaptype, f1_mhz) {
                Some(w) => (p.mask@, p.sign@) == applied(w),
                None => false,
            },
            None => ap_plan(*ap, iaptype, f1_mhz) is None,
        },
{
    if ap.ncontest == 6 {
        return None;
    }
    if ap.ncontest == 7 && f1_mhz > 950000 {
        return None;
    }
    let napwid = ap.napwid_mhz as i128;
    if ap.ncontest <= 5 && iaptype >= 3 && diff(ap.nfqso_mhz, f1_mhz) > napwid && diff(ap.nftx_mhz, f1_mhz) > napwid {
        return None;
    }
    if iaptype >= 2 && ap.apsym[0] > 1 {
        return None;
    }
    if ap.ncontest == 7 && iaptype >= 2 && ap.aph10[0] > 1 {
        return None;
    }
    if iaptype >= 3 && ap.apsym[29] > 1 {
        return None;
    }
    match writes_for(ap.ncontest, iaptype, &ap.apsym, &ap.aph10) {
        Some(w) => Some(apply_writes(&w)),
        None => None,
    }
}

/// An unpacked message is kept: it is not empty, and outside the contest
/// modes a standard message holds no `/R` and does not open with `TU; `.
pub open spec fn acceptable_unpacked(msg: Seq<char>, i3v: usize, ncontest: usize) -> bool {
    let quirk = (exists|i: int| occurs_at(msg, seq!['/', 'R'], i)) || has_prefix(msg, seq!['T', 'U', ';', ' ']);
    !(ncontest == 0 && 1 <= i3v <= 3 && quirk) && trim(msg).len() != 0
}

pub fn is_acceptable_unpacked_message(msg: &str, i3v: usize, ncontest: usize) -> (r: bool)
    ensures
        r == acceptable_unpacked(msg@, i3v, ncontest),
{
    let m = crate::text::chars_of(msg);
    proof {
        assert(['/', 'R']@ == seq!['/', 'R']);
        assert(['T', 'U', ';', ' ']@ == seq!['T', 'U', ';', ' ']);
    }
    if ncontest == 0 && 1 <= i3v && i3v <= 3 && (crate::text::contains_chars(&m, &['/', 'R'])
        || crate::text::starts_with(&m, &['T', 'U', ';', ' '])) {
        return false;
    }
    let t = crate::text::trim_chars(&m);
    t.len() != 0
}

/// The number of decoding passes: five regular ones, and with AP decoding
/// (or in contest mode 7) after 50 symbols two per AP type of the QSO
/// progress, or two for a CQ-only search; five in contest mode 6.
pub open spec fn npasses_of(enabled: bool, ncontest: usize, nzhsym: usize, cq_only: bool, nqso_progress: usize) -> usize {
    let nappasses = seq![2usize, 2, 2, 4, 4, 3];
    if ncontest == 6 {
        5
    } else if (enabled || ncontest == 7) && nzhsym >= 50 {
        if cq_only {
            7
        } else {
            (5 + 2 * nappasses[nqso_progress as int]) as usize
        }
    } else {
        5
    }
}

pub fn wsjt_npasses(enabled: bool, ncontest: usize, nzhsym: usize, cq_only: bool, nqso_progress: usize) -> (r: usize)
    requires
        (enabled || ncontest == 7) && nzhsym >= 50 && !cq_only ==> nqso_progress < 6,
    ensures
        r == npasses_of(enabled, ncontest, nzhsym, cq_only, nqso_progress),
{
    let nappasses: [usize; 6] = [2, 2, 2, 4, 4, 3];
    proof {
        assert(nappasses@ =~= seq![2usize, 2, 2, 4, 4, 3]);
    }
    let mut npasses: usize = if (enabled || ncontest == 7) && nzhsym >= 50 {
        if cq_only {
            7
        } else {
            5 + 2 * nappasses[nqso_progress]
        }
    } else {
        5
    };
    if ncontest == 6 {
        npasses = 5;
    }
    npasses
}

/// The AP type of pass `ipass` (from 6): the CQ type for a CQ-only search,
/// else the types of the QSO progress, each for two passes.
pub open spec fn pass_iaptype(cq_only: bool, nqso_progress: usize, ipass: usize) -> usize {
    let naptypes = seq![
        seq![1usize, 2, 0, 0],
        seq![2usize, 3, 0, 0],
        seq![2usize, 3, 0, 0],
        seq![3usize, 4, 5, 6],
        seq![3usize, 4, 5, 6],
        seq![3usize, 1, 2, 0],
    ];
    if cq_only {
        1
    } else {
        naptypes[nqso_progress as int][(ipass - 6) / 2]
    }
}

pub fn wsjt_pass_iaptype(cq_only: bool, nqso_progress: usize, ipass: usize) -> (r: usize)
    requires
        !cq_only ==> nqso_progress < 6 && 6 <= ipass <= 13,
    ensures
        r == pass_iaptype(cq_only, nqso_progress, ipass),
{
    let naptypes: [[usize; 4]; 6] = [
        [1, 2, 0, 0],
        [2, 3, 0, 0],
        [2, 3, 0, 0],
        [3, 4, 5, 6],
        [3, 4, 5, 6],
        [3, 1, 2, 0],
    ];
    if cq_only {
        return 1;
    }
    let row = naptypes[nqso_progress];
    let r = row[(ipass - 6) / 2];
    proof {
        let spec_rows = seq![
            seq![1usize, 2, 0, 0],
            seq![2usize, 3, 0, 0],
            seq![2usize, 3, 0, 0],
            seq![3usize, 4, 5, 6],
            seq![3usize, 4, 5, 6],
            seq![3usize, 1, 2, 0],
        ];
        assert(naptypes[0]@ =~= spec_rows[0]);
        assert(naptypes[1]@ =~= spec_rows[1]);
        assert(naptypes[2]@ =~= spec_rows[2]);
        assert(naptypes[3]@ =~= spec_rows[3]);
        assert(naptypes[4]@ =~= spec_rows[4]);
        assert(naptypes[5]@ =~= spec_rows[5]);
    }
    r
}

/// The soft metrics of a pass: the five sets in turn, then A and C in
/// turn for the AP passes.
pub open spec fn pass_metric(ipass: usize) -> usize {
    if 1 <= ipass <= 5 {
        (ipass - 1) as usize
    } else if (ipass - 5) % 2 == 1 {
        0
    } else {
        2
    }
}

/// The index (0 for A to 4 for E) of the soft metrics pass `ipass` reads.
pub fn wsjt_pass_metric(ipass: usize) -> (r: usize)
    requires
        ipass >= 1,
    ensures
        r == pass_metric(ipass),
{
    if ipass <= 5 {
        ipass - 1
    } else if (ipass - 5) % 2 == 1 {
        0
    } else {
        2
    }
}

} // verus!
