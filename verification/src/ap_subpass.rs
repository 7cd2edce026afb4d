//! Which a-priori (AP) decoding sub-passes may run on a candidate, from
//! the operator's calls, the QSO state and what the signal looks like.
use vstd::prelude::*;
use crate::text::{chars_of, has_prefix, has_suffix, is_digit, is_upper, strip_lead, strip_trail, trim, upper};

verus! {

/// A configured call as the AP passes use it: trimmed, without a leading
/// `<` or trailing `>`, upper-cased; absent when shorter than three bytes.
pub open spec fn config_call(call: Option<&str>) -> Option<Seq<char>> {
    match call {
        Some(c) => {
            let t = strip_trail(strip_lead(trim(c@), '<', '<'), '>', '>');
            if crate::text::byte_len(t) < 3 {
                None
            } else {
                Some(upper(t))
            }
        },
        None => None,
    }
}

pub fn normalized_config_call(call: Option<&str>) -> (r: Option<String>)
    ensures
        match r {
            Some(s) => config_call(call) == Some(s@),
            None => config_call(call) is None,
        },
{
    match call {
        Some(c) => {
            let cs = chars_of(c);
            let t = crate::text::trim_chars(&cs);
            let a = crate::text::strip_lead_chars(&t, '<', '<');
            let b = crate::text::strip_trail_chars(&a, '>', '>');
            if crate::text::byte_len_chars(&b) < 3 {
                None
            } else {
                let u = crate::text::upper_chars(&b);
                Some(crate::text::string_of(&u))
            }
        },
        None => None,
    }
}

/// A call that the standard 28-bit field cannot hold: a hash display, a
/// slash, more than six bytes, or a character other than `A`..`Z`, `0`..`9`.
pub open spec fn nonstandard(call: Seq<char>) -> bool {
    let t = trim(call);
    t.len() > 0 && (has_prefix(t, seq!['<']) || has_suffix(t, seq!['>']) || (exists|k: int|
        0 <= k < t.len() && t[k] == '/') || crate::text::byte_len(t) > 6 || !(forall|k: int|
        0 <= k < t.len() ==> is_upper(#[trigger] t[k]) || is_digit(t[k])))
}

pub fn is_nonstandard_call(call: &str) -> (r: bool)
    ensures
        r == nonstandard(call@),
{
    let cs = chars_of(call);
    let t = crate::text::trim_chars(&cs);
    if t.len() == 0 {
        return false;
    }
    if crate::text::starts_with(&t, &['<']) || crate::text::ends_with(&t, &['>']) {
        proof {
            assert(['<']@ == seq!['<']);
            assert(['>']@ == seq!['>']);
        }
        return true;
    }
    proof {
        assert(['<']@ == seq!['<']);
        assert(['>']@ == seq!['>']);
    }
    let mut i: usize = 0;
    while i < t.len()
        invariant
            i <= t@.len(),
            t@ == trim(cs@),
            cs@ == call@,
            forall|k: int| 0 <= k < i ==> t@[k] != '/',
        decreases t@.len() - i,
    {
        if t[i] == '/' {
            assert(t@[i as int] == '/');
            return true;
        }
        i = i + 1;
    }
    if crate::text::byte_len_chars(&t) > 6 {
        return true;
    }
    let mut j: usize = 0;
    while j < t.len()
        invariant
            j <= t@.len(),
            t@ == trim(cs@),
            cs@ == call@,
            forall|k: int| 0 <= k < j ==> is_upper(#[trigger] t@[k]) || is_digit(t@[k]),
        decreases t@.len() - j,
    {
        if !(crate::text::is_upper_char(t[j]) || crate::text::is_digit_char(t[j])) {
            assert(!(is_upper(t@[j as int]) || is_digit(t@[j as int])));
            return true;
        }
        j = j + 1;
    }
    false
}

/// What the operator's calls allow.
#[derive(Clone, Copy, Debug, PartialEq, Eq)]
pub struct ApCallFlags {
    /// My call is set.
    pub lapmyc: bool,
    pub lnomycall: bool,
    /// His call is not set.
    pub lnohiscall: bool,
    /// My call is set and standard.
    pub lmycallstd: bool,
    /// His call is set and standard.
    pub lhiscallstd: bool,
}

impl ApCallFlags {
    pub fn from_calls(mycall: Option<&str>, hiscall: Option<&str>) -> (r: ApCallFlags)
        ensures
            r.lapmyc == config_call(mycall) is Some,
            r.lnomycall == !r.lapmyc,
            r.lnohiscall == config_call(hiscall) is None,
            r.lmycallstd == (r.lapmyc && !nonstandard(
                match mycall {
                    Some(c) => c@,
                    None => Seq::empty(),
                },
            )),
            r.lhiscallstd == (!r.lnohiscall && !nonstandard(
                match hiscall {
                    Some(c) => c@,
                    None => Seq::empty(),
                },
            )),
    {
        let lapmyc = normalized_config_call(mycall).is_some();
        let lnohiscall = normalized_config_call(hiscall).is_none();
        let my = match mycall {
            Some(c) => c,
            None => "",
        };
        let his = match hiscall {
            Some(c) => c,
            None => "",
        };
        proof {
            reveal_strlit("");
        }
        let lmycallstd = lapmyc && !is_nonstandard_call(my);
        let lhiscallstd = !lnohiscall && !is_nonstandard_call(his);
        ApCallFlags { lapmyc, lnomycall: !lapmyc, lnohiscall, lmycallstd, lhiscallstd }
    }
}

/// The signal classes a candidate showed.
#[derive(Clone, Copy, Debug, Default, PartialEq, Eq)]
pub struct ApClassifier {
    pub lcqsignal: bool,
    pub lmycsignal: bool,
    pub lqsosigtype3: bool,
    pub lqsocandave: bool,
    pub lqso73: bool,
    pub lqsorr73: bool,
    pub lqsorrr: bool,
    pub ldxcsig: bool,
    pub lcqdxcsig: bool,
    pub lcqdxcnssig: bool,
    pub nmic: usize,
    pub nweak: usize,
}

/// The QSO state of the slot.
#[derive(Clone, Copy, Debug, Default, PartialEq, Eq)]
pub struct ApContext {
    pub lqsomsgdcd: bool,
    pub lft8sdec: bool,
    pub stophint: bool,
}

/// The settings the AP plan reads.
#[derive(Clone, Copy, Debug, Default, PartialEq, Eq)]
pub struct ApSettings {
    pub lhound: bool,
    pub lapcqonly: bool,
    pub nqso_progress: i32,
}

/// The AP types tried on a QSO candidate.
pub open spec fn qso_candidate_type(t: i32) -> bool {
    (3 <= t <= 6) || (11 <= t <= 14) || t == 21 || t == 23 || t == 24 || (41 <= t <= 44)
}

pub fn is_qso_candidate_ap_type(iaptype: i32) -> (r: bool)
    ensures
        r == qso_candidate_type(iaptype),
{
    (3 <= iaptype && iaptype <= 6) || (11 <= iaptype && iaptype <= 14) || iaptype == 21 || iaptype
        == 23 || iaptype == 24 || (41 <= iaptype && iaptype <= 44)
}

/// The Hound rules.
pub open spec fn hound_allows(c: ApContext, s: ApClassifier, f: ApCallFlags, cqonly: bool, t: i32) -> bool {
    !(f.lnomycall && t > 1 && t < 31) && !(f.lhiscallstd && t == 31 && !s.lcqsignal) && !(
    c.lqsomsgdcd && t > 0 && t < 25) && !(!c.stophint && (t == 31 || t == 36)) && !(!f.lapmyc && (t
        == 23 || t == 24)) && !(cqonly && (t == 31 || t == 36 || t == 111))
}

/// The rules when my call is standard and his is standard or unset.
pub open spec fn standard_pair_allows(
    settings: ApSettings,
    c: ApContext,
    s: ApClassifier,
    f: ApCallFlags,
    out: bool,
    cqonly: bool,
    t: i32,
) -> bool {
    &&& !(c.lqsomsgdcd && t > 2 && t < 31)
    &&& !(c.lft8sdec && t > 2)
    &&& !(t == 2 && (!f.lapmyc || cqonly))
    &&& !(t == 2 && settings.nqso_progress != 0 && s.nmic < 2)
    &&& !(!c.stophint && t > 30)
    &&& !(c.stophint && t > 2 && t < 31)
    &&& !(t > 2 && f.lnohiscall)
    &&& !(t > 2 && t < 31 && out)
    &&& !(t == 3 && !s.lqsosigtype3)
    &&& !(t == 4 && !s.lqsorrr)
    &&& !(t == 5 && !s.lqso73)
    &&& !(t == 6 && !s.lqsorr73)
    &&& !(t == 31 && !s.lcqdxcsig)
    &&& !(t == 31 && !f.lhiscallstd && cqonly)
    &&& !(t > 31 && cqonly)
    &&& !(t == 35 && !s.lqso73)
    &&& !(t == 36 && !s.lqsorr73)
}

/// The rules when my call is standard and his is set but nonstandard.
pub open spec fn his_nonstandard_allows(c: ApContext, s: ApClassifier, f: ApCallFlags, out: bool, cqonly: bool, t: i32) -> bool {
    &&& !(t == 2 && cqonly)
    &&& !(!c.stophint && t > 30)
    &&& !((c.lqsomsgdcd || !f.lapmyc) && t > 1 && t < 15)
    &&& !(t == 12 && !s.lqsorrr)
    &&& !(t == 13 && !s.lqso73)
    &&& !(t == 14 && !s.lqsorr73)
    &&& !(t > 30 && cqonly)
    &&& !(t > 2 && t < 15 && out)
}

/// The rules when both calls are set and nonstandard.
pub open spec fn both_nonstandard_allows(c: ApContext, s: ApClassifier, cqonly: bool, t: i32) -> bool {
    &&& !(t > 1 && t < 31)
    &&& !(!c.stophint && t > 1)
    &&& !(t > 30 && cqonly)
    &&& !(t == 31 && !s.lcqdxcnssig)
    &&& !(t > 34 && !s.ldxcsig)
}

/// The rules when my call is nonstandard and his is standard or unset.
pub open spec fn my_nonstandard_allows(c: ApContext, s: ApClassifier, f: ApCallFlags, out: bool, cqonly: bool, isubp1: usize, t: i32) -> bool {
    &&& !(isubp1 == 2 && s.nweak == 1)
    &&& !(isubp1 > 5)
    &&& !(t == 40 && cqonly)
    &&& !(t > 40 && t < 45 && c.lqsomsgdcd)
    &&& !(t == 42 && !s.lqsorrr)
    &&& !(t == 43 && !s.lqso73)
    &&& !(t == 44 && !s.lqsorr73)
    &&& !(t > 39 && !f.lapmyc)
    &&& !(f.lnomycall && t > 39 && t < 45)
    &&& !(f.lnohiscall && t != 1 && t != 40)
    &&& !(t > 30 && t < 40 && !c.stophint)
    &&& !(t == 31 && !s.lcqdxcsig)
    &&& !(t > 34 && t < 37 && (!s.ldxcsig || cqonly))
    &&& !(t > 30 && t < 40 && out)
}

/// Whether AP sub-pass `isubp1` of type `t` may run. `out` says the
/// candidate lies outside the AP width around both the QSO and the
/// transmit frequency; `pruning_ok` is the verdict of the signal-strength
/// pruning for this sub-pass.
pub open spec fn subpass_allowed(
    settings: ApSettings,
    c: ApContext,
    s: ApClassifier,
    f: ApCallFlags,
    out: bool,
    pruning_ok: bool,
    isubp1: usize,
    sync_cqonly: bool,
    t: i32,
) -> bool {
    let cqonly = settings.lapcqonly || sync_cqonly;
    if !pruning_ok {
        false
    } else if s.lqsocandave && ((isubp1 > 2 && isubp1 < 9) || c.lqsomsgdcd || (isubp1 > 8
        && !qso_candidate_type(t))) {
        false
    } else if !s.lqsocandave && s.lmycsignal && f.lmycallstd && ((isubp1 > 2 && isubp1 < 6) || (
    isubp1 > 5 && isubp1 < 9 && t != 2)) {
        false
    } else if settings.lhound {
        hound_allows(c, s, f, cqonly, t)
    } else if f.lmycallstd && (f.lhiscallstd || f.lnohiscall) {
        standard_pair_allows(settings, c, s, f, out, cqonly, t)
    } else if f.lmycallstd && !f.lhiscallstd && !f.lnohiscall {
        his_nonstandard_allows(c, s, f, out, cqonly, t)
    } else if !f.lmycallstd && !f.lhiscallstd && !f.lnohiscall {
        both_nonstandard_allows(c, s, cqonly, t)
    } else if !f.lmycallstd && (f.lhiscallstd || f.lnohiscall) {
        my_nonstandard_allows(c, s, f, out, cqonly, isubp1, t)
    } else {
        false
    }
}

pub fn jtdx_ap_subpass_allowed(
    settings: &ApSettings,
    context: ApContext,
    classifier: ApClassifier,
    calls: ApCallFlags,
    loutapwid: bool,
    pruning_ok: bool,
    isubp1: usize,
    sync_lapcqonly: bool,
    iaptype: i32,
) -> (r: bool)
    ensures
        r == subpass_allowed(
            *settings,
            context,
            classifier,
            calls,
            loutapwid,
            pruning_ok,
            isubp1,
            sync_lapcqonly,
            iaptype,
        ),
{
    let lapmyc = calls.lapmyc;
    let lnomycall = calls.lnomycall;
    let lnohiscall = calls.lnohiscall;
    let lmycallstd = calls.lmycallstd;
    let lhiscallstd = calls.lhiscallstd;
    let lapcqonly = settings.lapcqonly || sync_lapcqonly;
    if !pruning_ok {
        return false;
    }
    if classifier.lqsocandave {
        if isubp1 > 2 && isubp1 < 9 {
            return false;
        }
        if context.lqsomsgdcd {
            return false;
        }
        if isubp1 > 8 && !is_qso_candidate_ap_type(iaptype) {
            return false;
        }
    } else if classifier.lmycsignal && lmycallstd {
        if isubp1 > 2 && isubp1 < 6 {
            return false;
        }
        if isubp1 > 5 && isubp1 < 9 && iaptype != 2 {
            return false;
        }
    }
    if settings.lhound {
        if lnomycall && iaptype > 1 && iaptype < 31 {
            return false;
        }
        if lhiscallstd && iaptype == 31 && !classifier.lcqsignal {
            return false;
        }
        if context.lqsomsgdcd && iaptype > 0 && iaptype < 25 {
            return false;
        }
        if !context.stophint && (iaptype == 31 || iaptype == 36) {
            return false;
        }
        if !lapmyc && (iaptype == 23 || iaptype == 24) {
            return false;
        }
        if lapcqonly && (iaptype == 31 || iaptype == 36 || iaptype == 111) {
            return false;
        }
        return true;
    }
    if lmycallstd && (lhiscallstd || lnohiscall) {
        if context.lqsomsgdcd && iaptype > 2 && iaptype < 31 {
            return false;
        }
        if context.lft8sdec && iaptype > 2 {
            return false;
        }
        if iaptype == 2 {
            if !lapmyc || lapcqonly {
                return false;
            }
            if settings.nqso_progress != 0 && classifier.nmic < 2 {
                return false;
            }
        }
        if !context.stophint && iaptype > 30 {
            return false;
        }
        if context.stophint && iaptype > 2 && iaptype < 31 {
            return false;
        }
        if iaptype > 2 && lnohiscall {
            return false;
        }
        if iaptype > 2 && iaptype < 31 && loutapwid {
            return false;
        }
        if iaptype == 3 && !classifier.lqsosigtype3 {
            return false;
        }
        if iaptype == 4 && !classifier.lqsorrr {
            return false;
        }
        if iaptype == 5 && !classifier.lqso73 {
            return false;
        }
        if iaptype == 6 && !classifier.lqsorr73 {
            return false;
        }
        if iaptype == 31 && !classifier.lcqdxcsig {
            return false;
        }
        if iaptype == 31 && !lhiscallstd && lapcqonly {
            return false;
        }
        if iaptype > 31 && lapcqonly {
            return false;
        }
        if iaptype == 35 && !classifier.lqso73 {
            return false;
        }
        if iaptype == 36 && !classifier.lqsorr73 {
            return false;
        }
        return true;
    }
    if lmycallstd && !lhiscallstd && !lnohiscall {
        if iaptype == 2 && lapcqonly {
            return false;
        }
        if !context.stophint && iaptype > 30 {
            return false;
        }
        if (context.lqsomsgdcd || !lapmyc) && iaptype > 1 && iaptype < 15 {
            return false;
        }
        if iaptype == 12 && !classifier.lqsorrr {
            return false;
        }
        if iaptype == 13 && !classifier.lqso73 {
            return false;
        }
        if iaptype == 14 && !classifier.lqsorr73 {
            return false;
        }
        if iaptype > 30 && lapcqonly {
            return false;
        }
        if iaptype > 2 && iaptype < 15 && loutapwid {
            return false;
        }
        return true;
    }
    if !lmycallstd && !lhiscallstd && !lnohiscall {
        if iaptype > 1 && iaptype < 31 {
            return false;
        }
        if !context.stophint && iaptype > 1 {
            return false;
        }
        if iaptype > 30 && lapcqonly {
            return false;
        }
        if iaptype == 31 && !classifier.lcqdxcnssig {
            return false;
        }
        if iaptype > 34 && !classifier.ldxcsig {
            return false;
        }
        return true;
    }
    if !lmycallstd && (lhiscallstd || lnohiscall) {
        if isubp1 == 2 && classifier.nweak == 1 {
            return false;
        }
        if isubp1 > 5 {
            return false;
        }
        if iaptype == 40 && lapcqonly {
            return false;
        }
        if iaptype > 40 && iaptype < 45 && context.lqsomsgdcd {
            return false;
        }
        if iaptype == 42 && !classifier.lqsorrr {
            return false;
        }
        if iaptype == 43 && !classifier.lqso73 {
            return false;
        }
        if iaptype == 44 && !classifier.lqsorr73 {
            return false;
        }
        if iaptype > 39 && !lapmyc {
            return false;
        }
        if lnomycall && iaptype > 39 && iaptype < 45 {
            return false;
        }
        if lnohiscall && iaptype != 1 && iaptype != 40 {
            return false;
        }
        if iaptype > 30 && iaptype < 40 && !context.stophint {
            return false;
        }
        if iaptype == 31 && !classifier.lcqdxcsig {
            return false;
        }
        if iaptype > 34 && iaptype < 37 && (!classifier.ldxcsig || lapcqonly) {
            return false;
        }
        if iaptype > 30 && iaptype < 40 && loutapwid {
            return false;
        }
        return true;
    }
    false
}

/// A Hound never runs an AP pass that needs my call when none is set.
pub proof fn lemma_hound_without_mycall(
    settings: ApSettings,
    c: ApContext,
    s: ApClassifier,
    f: ApCallFlags,
    out: bool,
    pruning_ok: bool,
    isubp1: usize,
    sync_cqonly: bool,
    t: i32,
)
    requires
        settings.lhound,
        f.lnomycall,
        1 < t < 31,
    ensures
        !subpass_allowed(settings, c, s, f, out, pruning_ok, isubp1, sync_cqonly, t),
{
}

/// A sub-pass that the signal-strength pruning refuses never runs.
pub proof fn lemma_pruning_refusal_is_final(
    settings: ApSettings,
    c: ApContext,
    s: ApClassifier,
    f: ApCallFlags,
    out: bool,
    isubp1: usize,
    sync_cqonly: bool,
    t: i32,
)
    ensures
        !subpass_allowed(settings, c, s, f, out, false, isubp1, sync_cqonly, t),
{
}

} // verus!
