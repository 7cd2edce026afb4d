//! The JTDX decoder's memory from slot to slot: the decodes of the current
//! slot, the messages of the last even and odd intervals, the calls heard
//! with their time offsets, the messages to my call, and the last message
//! of the QSO in progress. Frequencies are in millihertz, times in
//! milliseconds.
use vstd::prelude::*;
use crate::passes::IntervalKind;
use crate::jtdx_calls::{base_two_calls, call_text, mentions_late, message_call, qso_root};
use crate::jtdx_state::DecodeSource;
use crate::text::{byte_len, chars_of, has_prefix, occurs_at, starts_with, trim, trim_chars, words};

verus! {

/// The last received message of the QSO in progress.
pub struct LastRxMsg {
    pub xdt_ms: i64,
    pub lstate: bool,
    pub lastmsg: String,
}

/// A call heard in an interval, with the time offset it was heard at.
pub struct CallSignDt {
    pub dt_ms: i64,
    pub call2: String,
}

/// A message to my call.
pub struct InCall {
    pub xdt_ms: i64,
    pub msg: String,
}

/// A message of an even or odd interval, live while `lstate` holds.
pub struct OddEvenMessage {
    pub freq_mhz: i64,
    pub dt_ms: i64,
    pub lstate: bool,
    pub msg: String,
}

/// The slot-to-slot memory of the decoder.
pub struct Ft8Mod1 {
    pub allmessages: Vec<String>,
    pub allsnrs: Vec<i32>,
    pub allfreq_mhz: Vec<i64>,
    pub ndecodes: usize,
    pub nmsg: usize,
    pub lqsomsgdcd: bool,
    pub lft8sdec: bool,
    pub lasthcall: String,
    pub lastrxmsg: LastRxMsg,
    pub calldteven: Vec<CallSignDt>,
    pub calldtodd: Vec<CallSignDt>,
    pub incall: Vec<InCall>,
    pub evencopy: Vec<OddEvenMessage>,
    pub oddcopy: Vec<OddEvenMessage>,
    pub even: Vec<OddEvenMessage>,
    pub odd: Vec<OddEvenMessage>,
    pub msgsrcvd: Vec<String>,
    pub lrepliedother: bool,
}

/// An odd/even message as plain values: frequency, time, live, text.
pub type OddEvenView = (i64, i64, bool, Seq<char>);

/// The memory as plain values.
pub struct Mod1View {
    pub allmessages: Seq<Seq<char>>,
    pub allsnrs: Seq<i32>,
    pub allfreq_mhz: Seq<i64>,
    pub ndecodes: usize,
    pub nmsg: usize,
    pub lqsomsgdcd: bool,
    pub lft8sdec: bool,
    pub lasthcall: Seq<char>,
    pub lastrx: (i64, bool, Seq<char>),
    pub calldteven: Seq<(i64, Seq<char>)>,
    pub calldtodd: Seq<(i64, Seq<char>)>,
    pub incall: Seq<(i64, Seq<char>)>,
    pub evencopy: Seq<OddEvenView>,
    pub oddcopy: Seq<OddEvenView>,
    pub even: Seq<OddEvenView>,
    pub odd: Seq<OddEvenView>,
    pub msgsrcvd: Seq<Seq<char>>,
    pub lrepliedother: bool,
}

pub open spec fn strings_view(v: Seq<String>) -> Seq<Seq<char>> {
    v.map_values(|s: String| s@)
}

pub open spec fn oe_view(e: OddEvenMessage) -> OddEvenView {
    (e.freq_mhz, e.dt_ms, e.lstate, e.msg@)
}

pub open spec fn oe_seq(v: Seq<OddEvenMessage>) -> Seq<OddEvenView> {
    v.map_values(|e: OddEvenMessage| oe_view(e))
}

pub open spec fn cdt_seq(v: Seq<CallSignDt>) -> Seq<(i64, Seq<char>)> {
    v.map_values(|e: CallSignDt| (e.dt_ms, e.call2@))
}

pub open spec fn incall_seq(v: Seq<InCall>) -> Seq<(i64, Seq<char>)> {
    v.map_values(|e: InCall| (e.xdt_ms, e.msg@))
}

/// `n` empty odd/even messages.
pub open spec fn blank_oe(n: nat) -> Seq<OddEvenView> {
    Seq::new(n, |i: int| (0i64, 0i64, false, Seq::<char>::empty()))
}

/// `n` empty texts.
pub open spec fn blank_strings(n: nat) -> Seq<Seq<char>> {
    Seq::new(n, |i: int| Seq::<char>::empty())
}

impl View for Ft8Mod1 {
    type V = Mod1View;

    open spec fn view(&self) -> Mod1View {
        Mod1View {
            allmessages: strings_view(self.allmessages@),
            allsnrs: self.allsnrs@,
            allfreq_mhz: self.allfreq_mhz@,
            ndecodes: self.ndecodes,
            nmsg: self.nmsg,
            lqsomsgdcd: self.lqsomsgdcd,
            lft8sdec: self.lft8sdec,
            lasthcall: self.lasthcall@,
            lastrx: (self.lastrxmsg.xdt_ms, self.lastrxmsg.lstate, self.lastrxmsg.lastmsg@),
            calldteven: cdt_seq(self.calldteven@),
            calldtodd: cdt_seq(self.calldtodd@),
            incall: incall_seq(self.incall@),
            evencopy: oe_seq(self.evencopy@),
            oddcopy: oe_seq(self.oddcopy@),
            even: oe_seq(self.even@),
            odd: oe_seq(self.odd@),
            msgsrcvd: strings_view(self.msgsrcvd@),
            lrepliedother: self.lrepliedother,
        }
    }
}

impl Ft8Mod1 {
    /// The tables have their fixed sizes: 200 decodes of a slot, 150 calls
    /// per interval parity, 30 messages to my call, 130 messages per
    /// interval table and 130 received call pairs.
    pub open spec fn wf(&self) -> bool {
        &&& self.allmessages@.len() == 200
        &&& self.allsnrs@.len() == 200
        &&& self.allfreq_mhz@.len() == 200
        &&& self.calldteven@.len() == 150
        &&& self.calldtodd@.len() == 150
        &&& self.incall@.len() == 30
        &&& self.evencopy@.len() == 130
        &&& self.oddcopy@.len() == 130
        &&& self.even@.len() == 130
        &&& self.odd@.len() == 130
        &&& self.msgsrcvd@.len() == 130
    }
}

fn blank_strings_vec(n: usize) -> (r: Vec<String>)
    ensures
        strings_view(r@) == blank_strings(n as nat),
        r@.len() == n,
{
    let mut r: Vec<String> = Vec::new();
    let mut i: usize = 0;
    while i < n
        invariant
            i <= n,
            r@.len() == i,
            forall|k: int| 0 <= k < i ==> (#[trigger] r@[k])@ == Seq::<char>::empty(),
        decreases n - i,
    {
        r.push(String::new());
        i = i + 1;
    }
    proof {
        assert(strings_view(r@) =~= blank_strings(n as nat));
    }
    r
}

fn blank_oe_vec(n: usize) -> (r: Vec<OddEvenMessage>)
    ensures
        oe_seq(r@) == blank_oe(n as nat),
        r@.len() == n,
{
    let mut r: Vec<OddEvenMessage> = Vec::new();
    let mut i: usize = 0;
    while i < n
        invariant
            i <= n,
            r@.len() == i,
            forall|k: int| 0 <= k < i ==> oe_view(#[trigger] r@[k]) == (0i64, 0i64, false, Seq::<char>::empty()),
        decreases n - i,
    {
        r.push(OddEvenMessage { freq_mhz: 0, dt_ms: 0, lstate: false, msg: String::new() });
        i = i + 1;
    }
    proof {
        assert(oe_seq(r@) =~= blank_oe(n as nat));
    }
    r
}

fn copy_oe(e: &OddEvenMessage) -> (r: OddEvenMessage)
    ensures
        oe_view(r) == oe_view(*e),
{
    OddEvenMessage { freq_mhz: e.freq_mhz, dt_ms: e.dt_ms, lstate: e.lstate, msg: e.msg.clone() }
}

fn copy_oe_vec(v: &Vec<OddEvenMessage>) -> (r: Vec<OddEvenMessage>)
    ensures
        oe_seq(r@) == oe_seq(v@),
        r@.len() == v@.len(),
{
    let mut r: Vec<OddEvenMessage> = Vec::new();
    let mut i: usize = 0;
    while i < v.len()
        invariant
            i <= v@.len(),
            r@.len() == i,
            forall|k: int| 0 <= k < i ==> oe_view(#[trigger] r@[k]) == oe_view(v@[k]),
        decreases v@.len() - i,
    {
        r.push(copy_oe(&v[i]));
        i = i + 1;
    }
    proof {
        assert(oe_seq(r@) =~= oe_seq(v@));
    }
    r
}

fn blank_cdt_vec(n: usize) -> (r: Vec<CallSignDt>)
    ensures
        cdt_seq(r@) == Seq::new(n as nat, |i: int| (0i64, Seq::<char>::empty())),
{
    let mut r: Vec<CallSignDt> = Vec::new();
    let mut i: usize = 0;
    while i < n
        invariant
            i <= n,
            r@.len() == i,
            forall|k: int| 0 <= k < i ==> (#[trigger] r@[k]).dt_ms == 0 && r@[k].call2@ == Seq::<char>::empty(),
        decreases n - i,
    {
        r.push(CallSignDt { dt_ms: 0, call2: String::new() });
        i = i + 1;
    }
    proof {
        assert(cdt_seq(r@) =~= Seq::new(n as nat, |i: int| (0i64, Seq::<char>::empty())));
    }
    r
}

fn blank_incall_vec(n: usize) -> (r: Vec<InCall>)
    ensures
        incall_seq(r@) == Seq::new(n as nat, |i: int| (0i64, Seq::<char>::empty())),
{
    let mut r: Vec<InCall> = Vec::new();
    let mut i: usize = 0;
    while i < n
        invariant
            i <= n,
            r@.len() == i,
            forall|k: int| 0 <= k < i ==> (#[trigger] r@[k]).xdt_ms == 0 && r@[k].msg@ == Seq::<char>::empty(),
        decreases n - i,
    {
        r.push(InCall { xdt_ms: 0, msg: String::new() });
        i = i + 1;
    }
    proof {
        assert(incall_seq(r@) =~= Seq::new(n as nat, |i: int| (0i64, Seq::<char>::empty())));
    }
    r
}

/// The memory of a new decoder: empty tables at their sizes.
pub open spec fn fresh_memory() -> Mod1View {
    Mod1View {
        allmessages: blank_strings(200),
        allsnrs: Seq::new(200, |i: int| 0i32),
        allfreq_mhz: Seq::new(200, |i: int| 0i64),
        ndecodes: 0,
        nmsg: 0,
        lqsomsgdcd: false,
        lft8sdec: false,
        lasthcall: Seq::<char>::empty(),
        lastrx: (0i64, false, Seq::<char>::empty()),
        calldteven: Seq::new(150, |i: int| (0i64, Seq::<char>::empty())),
        calldtodd: Seq::new(150, |i: int| (0i64, Seq::<char>::empty())),
        incall: Seq::new(30, |i: int| (0i64, Seq::<char>::empty())),
        evencopy: blank_oe(130),
        oddcopy: blank_oe(130),
        even: blank_oe(130),
        odd: blank_oe(130),
        msgsrcvd: blank_strings(130),
        lrepliedother: false,
    }
}

impl Ft8Mod1 {
    /// An empty memory with the tables at their sizes.
    pub fn new() -> (r: Ft8Mod1)
        ensures
            r.wf(),
            r@ == fresh_memory(),
            r@.allmessages == blank_strings(200),
            r@.allsnrs == Seq::new(200, |i: int| 0i32),
            r@.allfreq_mhz == Seq::new(200, |i: int| 0i64),
            r@.ndecodes == 0 && r@.nmsg == 0,
            !r@.lqsomsgdcd && !r@.lft8sdec && !r@.lrepliedother,
            r@.lasthcall == Seq::<char>::empty(),
            r@.lastrx == (0i64, false, Seq::<char>::empty()),
            r@.calldteven == Seq::new(150, |i: int| (0i64, Seq::<char>::empty())),
            r@.calldtodd == Seq::new(150, |i: int| (0i64, Seq::<char>::empty())),
            r@.incall == Seq::new(30, |i: int| (0i64, Seq::<char>::empty())),
            r@.evencopy == blank_oe(130) && r@.oddcopy == blank_oe(130),
            r@.even == blank_oe(130) && r@.odd == blank_oe(130),
            r@.msgsrcvd == blank_strings(130),
    {
        let mut allsnrs: Vec<i32> = Vec::new();
        let mut allfreq_mhz: Vec<i64> = Vec::new();
        let mut i: usize = 0;
        while i < 200
            invariant
                i <= 200,
                allsnrs@ == Seq::new(i as nat, |k: int| 0i32),
                allfreq_mhz@ == Seq::new(i as nat, |k: int| 0i64),
            decreases 200 - i,
        {
            allsnrs.push(0);
            allfreq_mhz.push(0);
            proof {
                assert(allsnrs@ =~= Seq::new((i + 1) as nat, |k: int| 0i32));
                assert(allfreq_mhz@ =~= Seq::new((i + 1) as nat, |k: int| 0i64));
            }
            i = i + 1;
        }
        let r = Ft8Mod1 {
            allmessages: blank_strings_vec(200),
            allsnrs,
            allfreq_mhz,
            ndecodes: 0,
            nmsg: 0,
            lqsomsgdcd: false,
            lft8sdec: false,
            lasthcall: String::new(),
            lastrxmsg: LastRxMsg { xdt_ms: 0, lstate: false, lastmsg: String::new() },
            calldteven: blank_cdt_vec(150),
            calldtodd: blank_cdt_vec(150),
            incall: blank_incall_vec(30),
            evencopy: blank_oe_vec(130),
            oddcopy: blank_oe_vec(130),
            even: blank_oe_vec(130),
            odd: blank_oe_vec(130),
            msgsrcvd: blank_strings_vec(130),
            lrepliedother: false,
        };
        proof {
            assert(cdt_seq(r.calldteven@).len() == 150);
            assert(incall_seq(r.incall@).len() == 30);
        }
        r
    }
}

/// The memory at the start of an interval: an even or odd interval keeps
/// the messages of the last one of its parity as the copy and starts its
/// table empty; any other slot empties all four tables.
pub open spec fn rotated(m: Mod1View, interval: IntervalKind) -> Mod1View {
    match interval {
        IntervalKind::Even => Mod1View { evencopy: m.even, even: blank_oe(m.even.len()), ..m },
        IntervalKind::Odd => Mod1View { oddcopy: m.odd, odd: blank_oe(m.odd.len()), ..m },
        IntervalKind::Other => Mod1View {
            even: blank_oe(m.even.len()),
            odd: blank_oe(m.odd.len()),
            evencopy: blank_oe(m.evencopy.len()),
            oddcopy: blank_oe(m.oddcopy.len()),
            ..m
        },
    }
}

pub fn rotate_odd_even_memory(state: &mut Ft8Mod1, interval: IntervalKind)
    ensures
        final(state)@ == rotated(old(state)@, interval),
        old(state).wf() ==> final(state).wf(),
{
    match interval {
        IntervalKind::Even => {
            state.evencopy = copy_oe_vec(&state.even);
            state.even = blank_oe_vec(state.even.len());
        },
        IntervalKind::Odd => {
            state.oddcopy = copy_oe_vec(&state.odd);
            state.odd = blank_oe_vec(state.odd.len());
        },
        IntervalKind::Other => {
            state.even = blank_oe_vec(state.even.len());
            state.odd = blank_oe_vec(state.odd.len());
            state.evencopy = blank_oe_vec(state.evencopy.len());
            state.oddcopy = blank_oe_vec(state.oddcopy.len());
        },
    }
}

/// The memory at the start of a slot's decoding: no decodes yet, no QSO
/// message decoded, no deep decode, and no reply to another station.
pub open spec fn reset_arrays(m: Mod1View) -> Mod1View {
    Mod1View {
        ndecodes: 0,
        nmsg: 0,
        lqsomsgdcd: false,
        lft8sdec: false,
        allmessages: blank_strings(m.allmessages.len()),
        allsnrs: Seq::new(m.allsnrs.len(), |i: int| 0i32),
        allfreq_mhz: Seq::new(m.allfreq_mhz.len(), |i: int| 0i64),
        lrepliedother: false,
        msgsrcvd: blank_strings(m.msgsrcvd.len()),
        ..m
    }
}

fn zeros_i32(n: usize) -> (r: Vec<i32>)
    ensures
        r@ == Seq::new(n as nat, |i: int| 0i32),
        r@.len() == n,
{
    let mut r: Vec<i32> = Vec::new();
    let mut i: usize = 0;
    while i < n
        invariant
            i <= n,
            r@ == Seq::new(i as nat, |k: int| 0i32),
        decreases n - i,
    {
        r.push(0);
        proof {
            assert(r@ =~= Seq::new((i + 1) as nat, |k: int| 0i32));
        }
        i = i + 1;
    }
    r
}

fn zeros_i64(n: usize) -> (r: Vec<i64>)
    ensures
        r@ == Seq::new(n as nat, |i: int| 0i64),
        r@.len() == n,
{
    let mut r: Vec<i64> = Vec::new();
    let mut i: usize = 0;
    while i < n
        invariant
            i <= n,
            r@ == Seq::new(i as nat, |k: int| 0i64),
        decreases n - i,
    {
        r.push(0);
        proof {
            assert(r@ =~= Seq::new((i + 1) as nat, |k: int| 0i64));
        }
        i = i + 1;
    }
    r
}

pub fn reset_decode_arrays(state: &mut Ft8Mod1)
    ensures
        final(state)@ == reset_arrays(old(state)@),
        old(state).wf() ==> final(state).wf(),
{
    state.ndecodes = 0;
    state.nmsg = 0;
    state.lqsomsgdcd = false;
    state.lft8sdec = false;
    state.allmessages = blank_strings_vec(state.allmessages.len());
    state.allsnrs = zeros_i32(state.allsnrs.len());
    state.allfreq_mhz = zeros_i64(state.allfreq_mhz.len());
    state.lrepliedother = false;
    state.msgsrcvd = blank_strings_vec(state.msgsrcvd.len());
}

pub open spec fn abs_diff(a: int, b: int) -> int {
    crate::ft8b_plan::abs_diff(a, b)
}

/// The memory after a decode is recorded: its text, SNR and frequency at
/// the next free place of the slot's tables while there is one, and the
/// decode counted.
pub open spec fn recorded(m: Mod1View, msg: Seq<char>, nsnr: i32, freq_mhz: i64) -> Mod1View {
    let idx = m.ndecodes as int;
    let stored = if idx < m.allmessages.len() {
        Mod1View {
            allmessages: m.allmessages.update(idx, msg),
            allsnrs: m.allsnrs.update(idx, nsnr),
            allfreq_mhz: m.allfreq_mhz.update(idx, freq_mhz),
            ..m
        }
    } else {
        m
    };
    Mod1View { ndecodes: (m.ndecodes + 1) as usize, nmsg: (m.ndecodes + 1) as usize, ..stored }
}

pub fn save_decode_state(state: &mut Ft8Mod1, msg37: &str, nsnr: i32, freq_mhz: i64)
    requires
        old(state).wf(),
        old(state).ndecodes < usize::MAX,
    ensures
        final(state)@ == recorded(old(state)@, msg37@, nsnr, freq_mhz),
        final(state).wf(),
{
    let idx = state.ndecodes;
    if idx < state.allmessages.len() {
        let text = crate::text::string_of(&chars_of(msg37));
        state.allmessages.set(idx, text);
        state.allsnrs.set(idx, nsnr);
        state.allfreq_mhz.set(idx, freq_mhz);
        proof {
            assert(strings_view(state.allmessages@) =~= strings_view(old(state).allmessages@).update(
                idx as int,
                msg37@,
            ));
        }
    }
    state.ndecodes = state.ndecodes + 1;
    state.nmsg = state.ndecodes;
}

/// Decode `i` of the slot repeats a decode of the trimmed text `msg`: with
/// duplicates hidden, when it was no weaker or within 45 Hz; otherwise when
/// within 45 Hz and no weaker, or stronger with several decoding threads.
pub open spec fn dup_at(m: Mod1View, i: int, msg: Seq<char>, nsnr: i32, freq_mhz: i64, hide_dupes: bool, numthreads: usize) -> bool {
    let near = abs_diff(m.allfreq_mhz[i] as int, freq_mhz as int) < 45000;
    let weaker = nsnr <= m.allsnrs[i];
    &&& trim(m.allmessages[i]) == trim(msg)
    &&& if hide_dupes {
        weaker || (!weaker && near)
    } else {
        (weaker && near) || (!weaker && near && numthreads != 1)
    }
}

/// A decode is dropped as a duplicate when its trimmed text is empty or it
/// repeats one of the slot's recorded decodes.
pub open spec fn is_dup(m: Mod1View, msg: Seq<char>, nsnr: i32, freq_mhz: i64, hide_dupes: bool, numthreads: usize) -> bool {
    let n = if m.ndecodes < m.allmessages.len() {
        m.ndecodes as int
    } else {
        m.allmessages.len() as int
    };
    trim(msg).len() == 0 || exists|i: int| 0 <= i < n && #[trigger] dup_at(m, i, msg, nsnr, freq_mhz, hide_dupes, numthreads)
}

pub fn is_duplicate_decode(
    state: &Ft8Mod1,
    hide_dupes: bool,
    msg37: &str,
    nsnr: i32,
    freq_mhz: i64,
    numthreads: usize,
) -> (r: bool)
    requires
        state.wf(),
    ensures
        r == is_dup(state@, msg37@, nsnr, freq_mhz, hide_dupes, numthreads),
{
    let mc = chars_of(msg37);
    let msg = trim_chars(&mc);
    if msg.len() == 0 {
        return true;
    }
    let n = if state.ndecodes < state.allmessages.len() {
        state.ndecodes
    } else {
        state.allmessages.len()
    };
    let ghost m = state@;
    let mut i: usize = 0;
    while i < n
        invariant
            i <= n <= 200,
            state.wf(),
            m == state@,
            msg@ == trim(msg37@),
            n as int == if m.ndecodes < m.allmessages.len() {
                m.ndecodes as int
            } else {
                m.allmessages.len() as int
            },
            forall|k: int| 0 <= k < i ==> !#[trigger] dup_at(m, k, msg37@, nsnr, freq_mhz, hide_dupes, numthreads),
        decreases n - i,
    {
        let sc = chars_of(state.allmessages[i].as_str());
        let st = trim_chars(&sc);
        proof {
            assert(m.allmessages[i as int] == state.allmessages@[i as int]@);
        }
        if crate::text::eq_chars(&st, &msg) {
            let d = state.allfreq_mhz[i] as i128 - freq_mhz as i128;
            let near = -45000 < d && d < 45000;
            let s = state.allsnrs[i];
            let hit = if hide_dupes {
                nsnr <= s || (nsnr > s && near)
            } else if nsnr <= s && near {
                true
            } else {
                nsnr > s && near && numthreads != 1
            };
            if hit {
                proof {
                    assert(dup_at(m, i as int, msg37@, nsnr, freq_mhz, hide_dupes, numthreads));
                }
                return true;
            }
        }
        i = i + 1;
    }
    false
}

/// A decode just recorded is a duplicate of itself: recording a decode and
/// then checking the same text, SNR and frequency finds it, whichever way
/// duplicates are treated.
pub proof fn lemma_recorded_decode_is_duplicate(
    m: Mod1View,
    msg: Seq<char>,
    nsnr: i32,
    freq_mhz: i64,
    hide_dupes: bool,
    numthreads: usize,
)
    requires
        m.allmessages.len() == 200,
        m.allsnrs.len() == 200,
        m.allfreq_mhz.len() == 200,
        m.ndecodes < 200,
    ensures
        is_dup(recorded(m, msg, nsnr, freq_mhz), msg, nsnr, freq_mhz, hide_dupes, numthreads),
{
    let r = recorded(m, msg, nsnr, freq_mhz);
    let i = m.ndecodes as int;
    assert(r.allmessages[i] == msg);
    assert(r.allsnrs[i] == nsnr);
    assert(r.allfreq_mhz[i] == freq_mhz);
    assert(dup_at(r, i, msg, nsnr, freq_mhz, hide_dupes, numthreads));
}

pub open spec fn cq_prefix() -> Seq<char> {
    seq!['C', 'Q', ' ']
}

/// The first word of a message, empty when it has none.
pub open spec fn first_word(msg: Seq<char>) -> Seq<char> {
    let ws = words(msg);
    if ws.len() > 0 {
        ws[0]
    } else {
        Seq::empty()
    }
}

/// A decode is kept in the interval's table: a CQ of type 4, or a
/// standard (type 1) or deep-with-stored-message decode that is no free
/// text, carries no hash, does not start with my call and, unless a CQ,
/// has no slash.
pub open spec fn should_save(
    mycall: Option<&str>,
    msg: Seq<char>,
    i3: usize,
    l_free_text: bool,
    l_hashmsg: bool,
    source: DecodeSource,
) -> bool {
    if i3 == 4 && has_prefix(msg, cq_prefix()) {
        true
    } else if l_free_text || l_hashmsg || msg.contains('<') {
        false
    } else if !((i3 == 1 && source != DecodeSource::Ft8sd) || source == DecodeSource::Ft8sd) {
        false
    } else if first_word(msg) == trim(call_text(mycall)) {
        false
    } else {
        !(msg.contains('/') && !has_prefix(msg, cq_prefix()))
    }
}

fn has_char(v: &[char], c: char) -> (r: bool)
    ensures
        r == v@.contains(c),
{
    match crate::jtdx_calls::find_char(v, c, 0) {
        Some(k) => {
            assert(v@[k as int] == c);
            true
        },
        None => false,
    }
}

fn call_chars(call: Option<&str>) -> (r: Vec<char>)
    ensures
        r@ == call_text(call),
{
    match call {
        Some(c) => chars_of(c),
        None => Vec::new(),
    }
}

pub fn should_save_odd_even_message(
    mycall: Option<&str>,
    msg: &str,
    i3: usize,
    l_free_text: bool,
    l_hashmsg: bool,
    source: DecodeSource,
) -> (r: bool)
    ensures
        r == should_save(mycall, msg@, i3, l_free_text, l_hashmsg, source),
{
    let m = chars_of(msg);
    proof {
        assert(['C', 'Q', ' ']@ == cq_prefix());
    }
    let cq = starts_with(&m, &['C', 'Q', ' ']);
    if i3 == 4 && cq {
        return true;
    }
    if l_free_text || l_hashmsg || has_char(&m, '<') {
        return false;
    }
    let ft8sd = source == DecodeSource::Ft8sd;
    if !((i3 == 1 && !ft8sd) || ft8sd) {
        return false;
    }
    let ws = crate::text::split_ws(&m);
    let first: Vec<char> = if ws.len() > 0 {
        copy_chars(&ws[0])
    } else {
        Vec::new()
    };
    let mc = call_chars(mycall);
    let mt = trim_chars(&mc);
    if crate::text::eq_chars(&first, &mt) {
        return false;
    }
    !(has_char(&m, '/') && !cq)
}

fn copy_chars(v: &[char]) -> (r: Vec<char>)
    ensures
        r@ == v@,
{
    proof {
        assert(v@.subrange(0, v@.len() as int) =~= v@);
    }
    crate::text::slice_range(v, 0, v.len())
}

/// The first message of a table that is not live.
pub open spec fn first_free(t: Seq<OddEvenView>) -> Option<int> {
    if exists|k: int| 0 <= k < t.len() && !(#[trigger] t[k]).2 {
        Some(choose|k: int| 0 <= k < t.len() && !(#[trigger] t[k]).2 && forall|j: int| 0 <= j < k ==> (#[trigger] t[j]).2)
    } else {
        None
    }
}

/// A table with the decode stored at its first free place, if any.
pub open spec fn stored_in(t: Seq<OddEvenView>, e: OddEvenView) -> Seq<OddEvenView> {
    match first_free(t) {
        Some(k) => t.update(k, e),
        None => t,
    }
}

/// The memory after a decode of an even or odd interval is offered to its
/// table.
pub open spec fn saved_odd_even(
    m: Mod1View,
    mycall: Option<&str>,
    msg: Seq<char>,
    freq_mhz: i64,
    dt_ms: i64,
    interval: IntervalKind,
    i3: usize,
    l_free_text: bool,
    l_hashmsg: bool,
    source: DecodeSource,
) -> Mod1View {
    if !should_save(mycall, msg, i3, l_free_text, l_hashmsg, source) {
        m
    } else {
        match interval {
            IntervalKind::Even => Mod1View { even: stored_in(m.even, (freq_mhz, dt_ms, true, msg)), ..m },
            IntervalKind::Odd => Mod1View { odd: stored_in(m.odd, (freq_mhz, dt_ms, true, msg)), ..m },
            IntervalKind::Other => m,
        }
    }
}

fn store_in_table(t: &mut Vec<OddEvenMessage>, msg: &str, freq_mhz: i64, dt_ms: i64)
    ensures
        oe_seq(final(t)@) == stored_in(oe_seq(old(t)@), (freq_mhz, dt_ms, true, msg@)),
        final(t)@.len() == old(t)@.len(),
{
    let ghost v = oe_seq(t@);
    let mut k: usize = 0;
    while k < t.len()
        invariant
            k <= t@.len(),
            v == oe_seq(t@),
            t@ == old(t)@,
            forall|j: int| 0 <= j < k ==> (#[trigger] v[j]).2,
        decreases t@.len() - k,
    {
        if !t[k].lstate {
            proof {
                assert(!v[k as int].2);
                let c = choose|c: int| 0 <= c < v.len() && !(#[trigger] v[c]).2 && forall|j: int| 0 <= j < c ==> (#[trigger] v[j]).2;
                assert(c == k) by {
                    if c < k {
                        assert(v[c].2);
                    } else if c > k {
                        assert(v[k as int].2);
                    }
                }
            }
            let text = crate::text::string_of(&chars_of(msg));
            t.set(k, OddEvenMessage { freq_mhz, dt_ms, lstate: true, msg: text });
            proof {
                assert(oe_seq(t@) =~= v.update(k as int, (freq_mhz, dt_ms, true, msg@)));
            }
            return;
        }
        k = k + 1;
    }
}

pub fn save_odd_even_message(
    state: &mut Ft8Mod1,
    mycall: Option<&str>,
    msg: &str,
    freq_mhz: i64,
    dt_ms: i64,
    interval: IntervalKind,
    i3: usize,
    l_free_text: bool,
    l_hashmsg: bool,
    source: DecodeSource,
)
    ensures
        final(state)@ == saved_odd_even(old(state)@, mycall, msg@, freq_mhz, dt_ms, interval, i3, l_free_text, l_hashmsg, source),
        old(state).wf() ==> final(state).wf(),
{
    if !should_save_odd_even_message(mycall, msg, i3, l_free_text, l_hashmsg, source) {
        return;
    }
    match interval {
        IntervalKind::Even => store_in_table(&mut state.even, msg, freq_mhz, dt_ms),
        IntervalKind::Odd => store_in_table(&mut state.odd, msg, freq_mhz, dt_ms),
        IntervalKind::Other => {},
    }
}

/// A table with a new first entry and its last entry dropped.
pub open spec fn pushed_front<T>(t: Seq<T>, e: T) -> Seq<T> {
    if t.len() == 0 {
        t
    } else {
        seq![e] + t.drop_last()
    }
}

/// The memory after a decode's call is noted with its time offset in the
/// table of the interval's parity.
pub open spec fn saved_call_dt(m: Mod1View, msg: Seq<char>, dt_ms: i64, interval: IntervalKind, l_free_text: bool) -> Mod1View {
    if l_free_text {
        m
    } else {
        match message_call(msg) {
            None => m,
            Some(c) => match interval {
                IntervalKind::Even => Mod1View { calldteven: pushed_front(m.calldteven, (dt_ms, c)), ..m },
                IntervalKind::Odd => Mod1View { calldtodd: pushed_front(m.calldtodd, (dt_ms, c)), ..m },
                IntervalKind::Other => m,
            },
        }
    }
}

fn push_front_cdt(t: &mut Vec<CallSignDt>, call2: String, dt_ms: i64)
    ensures
        cdt_seq(final(t)@) == pushed_front(cdt_seq(old(t)@), (dt_ms, call2@)),
        final(t)@.len() == old(t)@.len(),
{
    if t.len() == 0 {
        return;
    }
    let ghost v = cdt_seq(t@);
    t.pop();
    t.insert(0, CallSignDt { dt_ms, call2 });
    proof {
        assert(cdt_seq(t@) =~= seq![(dt_ms, call2@)] + v.drop_last());
    }
}

pub fn save_call_dt(state: &mut Ft8Mod1, msg: &str, dt_ms: i64, interval: IntervalKind, l_free_text: bool)
    ensures
        final(state)@ == saved_call_dt(old(state)@, msg@, dt_ms, interval, l_free_text),
        old(state).wf() ==> final(state).wf(),
{
    if l_free_text {
        return;
    }
    let call2 = match crate::jtdx_calls::extract_call(msg) {
        Some(c) => c,
        None => {
            return;
        },
    };
    match interval {
        IntervalKind::Even => push_front_cdt(&mut state.calldteven, call2, dt_ms),
        IntervalKind::Odd => push_front_cdt(&mut state.calldtodd, call2, dt_ms),
        IntervalKind::Other => {},
    }
}

/// The memory after a decode that starts with my call (of three bytes or
/// more, trimmed) is noted first among the messages to me.
pub open spec fn saved_incall(m: Mod1View, mycall: Option<&str>, msg: Seq<char>, dt_ms: i64) -> Mod1View {
    let mc = trim(call_text(mycall));
    if byte_len(mc) < 3 || !has_prefix(msg, mc + seq![' ']) {
        m
    } else {
        Mod1View { incall: pushed_front(m.incall, (dt_ms, msg)), ..m }
    }
}

pub fn save_incall(state: &mut Ft8Mod1, mycall: Option<&str>, msg: &str, dt_ms: i64)
    requires
        old(state).wf(),
    ensures
        final(state)@ == saved_incall(old(state)@, mycall, msg@, dt_ms),
        final(state).wf(),
{
    let mc = call_chars(mycall);
    let mt = trim_chars(&mc);
    if crate::text::byte_len_chars(&mt) < 3 {
        return;
    }
    let mut prefix = copy_chars(&mt);
    prefix.push(' ');
    proof {
        assert(prefix@ =~= trim(call_text(mycall)) + seq![' ']);
    }
    let m = chars_of(msg);
    if !starts_with(&m, &prefix) {
        return;
    }
    let ghost v = incall_seq(state.incall@);
    state.incall.pop();
    let text = crate::text::string_of(&m);
    state.incall.insert(0, InCall { xdt_ms: dt_ms, msg: text });
    proof {
        assert(incall_seq(state.incall@) =~= seq![(dt_ms, msg@)] + v.drop_last());
    }
}

/// The first entry of a table whose trimmed call is `call`.
pub open spec fn first_call_index(t: Seq<(i64, Seq<char>)>, call: Seq<char>) -> Option<int> {
    if exists|k: int| 0 <= k < t.len() && trim((#[trigger] t[k]).1) == call {
        Some(choose|k: int| 0 <= k < t.len() && trim((#[trigger] t[k]).1) == call && forall|j: int| 0 <= j < k ==> trim((#[trigger] t[j]).1) != call)
    } else {
        None
    }
}

/// The time offset his call was last heard at in the interval's parity.
pub open spec fn call_dt_of(m: Mod1View, hiscall: Option<&str>, interval: IntervalKind) -> Option<i64> {
    match hiscall {
        None => None,
        Some(h) => {
            let t = trim(h@);
            if t.len() == 0 {
                None
            } else {
                let table = match interval {
                    IntervalKind::Even => m.calldteven,
                    IntervalKind::Odd => m.calldtodd,
                    IntervalKind::Other => Seq::empty(),
                };
                match first_call_index(table, t) {
                    Some(k) => Some(table[k].0),
                    None => None,
                }
            }
        },
    }
}

fn find_call(t: &Vec<CallSignDt>, call: &[char]) -> (r: Option<i64>)
    ensures
        r == match first_call_index(cdt_seq(t@), call@) {
            Some(k) => Some(cdt_seq(t@)[k].0),
            None => None,
        },
{
    let ghost v = cdt_seq(t@);
    let mut k: usize = 0;
    while k < t.len()
        invariant
            k <= t@.len(),
            v == cdt_seq(t@),
            forall|j: int| 0 <= j < k ==> trim((#[trigger] v[j]).1) != call@,
        decreases t@.len() - k,
    {
        let cc = chars_of(t[k].call2.as_str());
        let ct = trim_chars(&cc);
        if crate::text::eq_chars(&ct, call) {
            proof {
                assert(trim(v[k as int].1) == call@);
                let c = choose|c: int| 0 <= c < v.len() && trim((#[trigger] v[c]).1) == call@ && forall|j: int| 0 <= j < c ==> trim((#[trigger] v[j]).1) != call@;
                assert(c == k) by {
                    if c < k {
                        assert(trim(v[c].1) != call@);
                    } else if c > k {
                        assert(trim(v[k as int].1) != call@);
                    }
                }
            }
            return Some(t[k].dt_ms);
        }
        k = k + 1;
    }
    None
}

pub fn call_dt_xdt(state: &Ft8Mod1, hiscall: Option<&str>, interval: IntervalKind) -> (r: Option<i64>)
    ensures
        r == call_dt_of(state@, hiscall, interval),
{
    let h = match hiscall {
        Some(h) => h,
        None => {
            return None;
        },
    };
    let hc = chars_of(h);
    let ht = trim_chars(&hc);
    if ht.len() == 0 {
        return None;
    }
    match interval {
        IntervalKind::Even => find_call(&state.calldteven, &ht),
        IntervalKind::Odd => find_call(&state.calldtodd, &ht),
        IntervalKind::Other => {
            proof {
                assert(first_call_index(Seq::<(i64, Seq<char>)>::empty(), ht@) is None);
            }
            None
        },
    }
}

/// `s` holds `p` somewhere.
pub open spec fn holds(s: Seq<char>, p: Seq<char>) -> bool {
    exists|i: int| occurs_at(s, p, i)
}

/// The first message to me that ends the search: an empty one, or one that
/// opens with the QSO's call pair.
pub open spec fn incall_stop(t: Seq<(i64, Seq<char>)>, root: Seq<char>) -> Option<int> {
    if exists|k: int| 0 <= k < t.len() && (trim((#[trigger] t[k]).1).len() == 0 || has_prefix(t[k].1, root)) {
        Some(
            choose|k: int|
                0 <= k < t.len() && (trim((#[trigger] t[k]).1).len() == 0 || has_prefix(t[k].1, root)) && forall|j: int|
                    0 <= j < k ==> !(trim((#[trigger] t[j]).1).len() == 0 || has_prefix(t[j].1, root)),
        )
    } else {
        None
    }
}

/// The memory after the last QSO message is looked up among the messages
/// to me, and whether it was found.
pub open spec fn restored_from_incall(m: Mod1View, mycall: Option<&str>, hiscall: Option<&str>) -> (Mod1View, bool) {
    match qso_root(mycall, hiscall) {
        None => (m, false),
        Some(root) => match incall_stop(m.incall, root) {
            Some(k) => if trim(m.incall[k].1).len() != 0 {
                (Mod1View { lastrx: (m.incall[k].0, true, m.incall[k].1), ..m }, true)
            } else {
                (m, false)
            },
            None => (m, false),
        },
    }
}

pub fn restore_lastrx_from_incall(state: &mut Ft8Mod1, mycall: Option<&str>, hiscall: Option<&str>) -> (r: bool)
    ensures
        (final(state)@, r) == restored_from_incall(old(state)@, mycall, hiscall),
        old(state).wf() ==> final(state).wf(),
{
    let root = match crate::jtdx_calls::msgroot(mycall, hiscall) {
        Some(r) => chars_of(r.as_str()),
        None => {
            return false;
        },
    };
    let ghost v = incall_seq(state.incall@);
    let mut k: usize = 0;
    while k < state.incall.len()
        invariant
            k <= v.len(),
            v == incall_seq(state.incall@),
            state@ == old(state)@,
            state.incall@ == old(state).incall@,
            old(state).wf() ==> state.wf(),
            qso_root(mycall, hiscall) == Some(root@),
            forall|j: int| 0 <= j < k ==> !(trim((#[trigger] v[j]).1).len() == 0 || has_prefix(v[j].1, root@)),
        decreases v.len() - k,
    {
        let mc = chars_of(state.incall[k].msg.as_str());
        let mt = trim_chars(&mc);
        let empty = mt.len() == 0;
        let opens = starts_with(&mc, &root);
        if empty || opens {
            proof {
                let c = choose|c: int|
                    0 <= c < v.len() && (trim((#[trigger] v[c]).1).len() == 0 || has_prefix(v[c].1, root@)) && forall|j: int|
                        0 <= j < c ==> !(trim((#[trigger] v[j]).1).len() == 0 || has_prefix(v[j].1, root@));
                assert(trim(v[k as int].1).len() == 0 || has_prefix(v[k as int].1, root@));
                assert(c == k) by {
                    if c < k {
                        assert(!(trim(v[c].1).len() == 0 || has_prefix(v[c].1, root@)));
                    } else if c > k {
                        assert(!(trim(v[k as int].1).len() == 0 || has_prefix(v[k as int].1, root@)));
                    }
                }
            }
            if empty {
                return false;
            }
            let text = state.incall[k].msg.clone();
            let xdt = state.incall[k].xdt_ms;
            state.lastrxmsg = LastRxMsg { xdt_ms: xdt, lstate: true, lastmsg: text };
            return true;
        }
        k = k + 1;
    }
    false
}

/// The first live message of a table that holds `needle`.
pub open spec fn first_holding(t: Seq<OddEvenView>, needle: Seq<char>) -> Option<int> {
    if exists|k: int| 0 <= k < t.len() && (#[trigger] t[k]).2 && holds(t[k].3, needle) {
        Some(
            choose|k: int|
                0 <= k < t.len() && (#[trigger] t[k]).2 && holds(t[k].3, needle) && forall|j: int|
                    0 <= j < k ==> !((#[trigger] t[j]).2 && holds(t[j].3, needle)),
        )
    } else {
        None
    }
}

/// The memory after the last QSO message is looked up among the last
/// interval of the same parity: the first live message naming his call.
pub open spec fn restored_from_copy(m: Mod1View, hiscall: Option<&str>, interval: IntervalKind) -> Mod1View {
    let h = trim(call_text(hiscall));
    if h.len() == 0 {
        m
    } else {
        let table = match interval {
            IntervalKind::Even => m.evencopy,
            IntervalKind::Odd => m.oddcopy,
            IntervalKind::Other => Seq::empty(),
        };
        match first_holding(table, seq![' '] + h + seq![' ']) {
            Some(k) => Mod1View { lastrx: (table[k].1, true, table[k].3), ..m },
            None => m,
        }
    }
}

fn find_holding(t: &Vec<OddEvenMessage>, needle: &[char]) -> (r: Option<usize>)
    ensures
        match r {
            Some(k) => first_holding(oe_seq(t@), needle@) == Some(k as int) && k < t@.len(),
            None => first_holding(oe_seq(t@), needle@) is None,
        },
{
    let ghost v = oe_seq(t@);
    let mut k: usize = 0;
    while k < t.len()
        invariant
            k <= t@.len(),
            v == oe_seq(t@),
            forall|j: int| 0 <= j < k ==> !((#[trigger] v[j]).2 && holds(v[j].3, needle@)),
        decreases t@.len() - k,
    {
        if t[k].lstate {
            let mc = chars_of(t[k].msg.as_str());
            if crate::text::contains_chars(&mc, needle) {
                proof {
                    assert(v[k as int].2 && holds(v[k as int].3, needle@));
                    let c = choose|c: int|
                        0 <= c < v.len() && (#[trigger] v[c]).2 && holds(v[c].3, needle@) && forall|j: int|
                            0 <= j < c ==> !((#[trigger] v[j]).2 && holds(v[j].3, needle@));
                    assert(c == k) by {
                        if c < k {
                            assert(!(v[c].2 && holds(v[c].3, needle@)));
                        } else if c > k {
                            assert(!(v[k as int].2 && holds(v[k as int].3, needle@)));
                        }
                    }
                }
                return Some(k);
            }
        }
        k = k + 1;
    }
    None
}

pub fn restore_lastrx_from_odd_even_copy(state: &mut Ft8Mod1, hiscall: Option<&str>, interval: IntervalKind)
    ensures
        final(state)@ == restored_from_copy(old(state)@, hiscall, interval),
        old(state).wf() ==> final(state).wf(),
{
    let hc = call_chars(hiscall);
    let h = trim_chars(&hc);
    if h.len() == 0 {
        return;
    }
    let mut needle: Vec<char> = Vec::new();
    needle.push(' ');
    crate::dx_report::push_all(&mut needle, &h);
    needle.push(' ');
    proof {
        assert(needle@ =~= seq![' '] + h@ + seq![' ']);
    }
    let found = match interval {
        IntervalKind::Even => find_holding(&state.evencopy, &needle),
        IntervalKind::Odd => find_holding(&state.oddcopy, &needle),
        IntervalKind::Other => {
            proof {
                assert(first_holding(Seq::<OddEvenView>::empty(), needle@) is None);
            }
            return;
        },
    };
    match found {
        Some(k) => {
            let (text, dt) = match interval {
                IntervalKind::Even => (state.evencopy[k].msg.clone(), state.evencopy[k].dt_ms),
                _ => (state.oddcopy[k].msg.clone(), state.oddcopy[k].dt_ms),
            };
            state.lastrxmsg = LastRxMsg { xdt_ms: dt, lstate: true, lastmsg: text };
        },
        None => {},
    }
}

/// The QSO frequency lies in the band decoded for the QSO.
pub open spec fn qso_thread(config: crate::passes::BandConfig) -> bool {
    let band = crate::passes::active_band(config);
    band.0 <= config.nfqso <= band.1
}

pub fn is_qso_thread(config: &crate::passes::BandConfig) -> (r: bool)
    requires
        crate::passes::narrowing_fits(*config),
    ensures
        r == qso_thread(*config),
{
    let (nfa, nfb) = crate::passes::active_jtdx_decode_band(config);
    config.nfqso >= nfa && config.nfqso <= nfb
}

/// The memory before a slot is decoded: without his call the QSO memory is
/// cleared; a last message that is about another call is forgotten; then,
/// in the QSO's band with a QSO and no message yet, the last message is
/// looked up among the messages to me and else among the last interval of
/// the same parity.
pub open spec fn prepared(
    m: Mod1View,
    mycall: Option<&str>,
    hiscall: Option<&str>,
    stophint: bool,
    in_thread: bool,
    interval: IntervalKind,
) -> Mod1View {
    let h = trim(call_text(hiscall));
    let m1 = if h.len() == 0 {
        Mod1View { lastrx: (0i64, false, Seq::<char>::empty()), lasthcall: Seq::<char>::empty(), ..m }
    } else if m.lastrx.1 && m.lasthcall != h && !holds(m.lastrx.2, h) {
        Mod1View { lastrx: (0i64, false, Seq::<char>::empty()), ..m }
    } else {
        m
    };
    if in_thread && !m1.lastrx.1 && !stophint && h.len() != 0 {
        let (m2, found) = restored_from_incall(m1, mycall, hiscall);
        if found {
            m2
        } else {
            restored_from_copy(m2, hiscall, interval)
        }
    } else {
        m1
    }
}

pub fn prepare_qso_memory(
    state: &mut Ft8Mod1,
    mycall: Option<&str>,
    hiscall: Option<&str>,
    stophint: bool,
    in_thread: bool,
    interval: IntervalKind,
)
    ensures
        final(state)@ == prepared(old(state)@, mycall, hiscall, stophint, in_thread, interval),
        old(state).wf() ==> final(state).wf(),
{
    let hc = call_chars(hiscall);
    let h = trim_chars(&hc);
    if h.len() == 0 {
        state.lastrxmsg = LastRxMsg { xdt_ms: 0, lstate: false, lastmsg: String::new() };
        state.lasthcall = String::new();
    } else if state.lastrxmsg.lstate {
        let lc = chars_of(state.lasthcall.as_str());
        let lm = chars_of(state.lastrxmsg.lastmsg.as_str());
        if !crate::text::eq_chars(&lc, &h) && !crate::text::contains_chars(&lm, &h) {
            state.lastrxmsg = LastRxMsg { xdt_ms: 0, lstate: false, lastmsg: String::new() };
        }
    }
    if in_thread && !state.lastrxmsg.lstate && !stophint && h.len() != 0 {
        if restore_lastrx_from_incall(state, mycall, hiscall) {
            return;
        }
        restore_lastrx_from_odd_even_copy(state, hiscall, interval);
    }
}

/// The last live message of the last interval of the same parity within
/// 3 Hz and 190 ms of a candidate.
pub open spec fn sd_match(e: OddEvenView, freq_mhz: i64, dt_ms: i64) -> bool {
    e.2 && abs_diff(e.0 as int, freq_mhz as int) < 3000 && abs_diff(e.1 as int, dt_ms as int) < 190
}

pub open spec fn last_sd(t: Seq<OddEvenView>, freq_mhz: i64, dt_ms: i64) -> Option<int> {
    if exists|k: int| 0 <= k < t.len() && sd_match(#[trigger] t[k], freq_mhz, dt_ms) {
        Some(
            choose|k: int|
                0 <= k < t.len() && sd_match(#[trigger] t[k], freq_mhz, dt_ms) && forall|j: int|
                    k < j < t.len() ==> !sd_match(#[trigger] t[j], freq_mhz, dt_ms),
        )
    } else {
        None
    }
}

pub open spec fn sd_table(m: Mod1View, interval: IntervalKind) -> Seq<OddEvenView> {
    match interval {
        IntervalKind::Even => m.evencopy,
        IntervalKind::Odd => m.oddcopy,
        IntervalKind::Other => Seq::empty(),
    }
}

fn find_last_sd(t: &Vec<OddEvenMessage>, freq_mhz: i64, dt_ms: i64) -> (r: Option<usize>)
    ensures
        match r {
            Some(k) => last_sd(oe_seq(t@), freq_mhz, dt_ms) == Some(k as int),
            None => last_sd(oe_seq(t@), freq_mhz, dt_ms) is None,
        },
{
    let ghost v = oe_seq(t@);
    let mut k: usize = t.len();
    while k > 0
        invariant
            k <= t@.len(),
            v == oe_seq(t@),
            forall|j: int| k <= j < v.len() ==> !sd_match(#[trigger] v[j], freq_mhz, dt_ms),
        decreases k,
    {
        let e = &t[k - 1];
        let df = e.freq_mhz as i128 - freq_mhz as i128;
        let dd = e.dt_ms as i128 - dt_ms as i128;
        if e.lstate && -3000 < df && df < 3000 && -190 < dd && dd < 190 {
            proof {
                let i = k - 1;
                assert(sd_match(v[i as int], freq_mhz, dt_ms));
                let c = choose|c: int|
                    0 <= c < v.len() && sd_match(#[trigger] v[c], freq_mhz, dt_ms) && forall|j: int|
                        c < j < v.len() ==> !sd_match(#[trigger] v[j], freq_mhz, dt_ms);
                assert(c == i) by {
                    if c > i {
                        assert(!sd_match(v[c], freq_mhz, dt_ms));
                    } else if c < i {
                        assert(!sd_match(v[i as int], freq_mhz, dt_ms));
                    }
                }
            }
            return Some(k - 1);
        }
        k = k - 1;
    }
    None
}

/// The index of the stored message a candidate may repeat, in the last
/// interval of the same parity.
pub fn find_sd_candidate(state: &Ft8Mod1, interval: IntervalKind, freq_mhz: i64, dt_ms: i64) -> (r: Option<usize>)
    ensures
        match r {
            Some(k) => last_sd(sd_table(state@, interval), freq_mhz, dt_ms) == Some(k as int),
            None => last_sd(sd_table(state@, interval), freq_mhz, dt_ms) is None,
        },
{
    match interval {
        IntervalKind::Even => find_last_sd(&state.evencopy, freq_mhz, dt_ms),
        IntervalKind::Odd => find_last_sd(&state.oddcopy, freq_mhz, dt_ms),
        IntervalKind::Other => {
            proof {
                assert(last_sd(Seq::<OddEvenView>::empty(), freq_mhz, dt_ms) is None);
            }
            None
        },
    }
}

/// A table with the message at `i` no longer live.
pub open spec fn retired(t: Seq<OddEvenView>, i: int) -> Seq<OddEvenView> {
    if 0 <= i < t.len() {
        t.update(i, (t[i].0, t[i].1, false, t[i].3))
    } else {
        t
    }
}

pub open spec fn cleared_sd(m: Mod1View, interval: IntervalKind, index: Option<usize>) -> Mod1View {
    match index {
        None => m,
        Some(i) => match interval {
            IntervalKind::Even => Mod1View { evencopy: retired(m.evencopy, i as int), ..m },
            IntervalKind::Odd => Mod1View { oddcopy: retired(m.oddcopy, i as int), ..m },
            IntervalKind::Other => m,
        },
    }
}

fn retire_at(t: &mut Vec<OddEvenMessage>, i: usize)
    ensures
        oe_seq(final(t)@) == retired(oe_seq(old(t)@), i as int),
        final(t)@.len() == old(t)@.len(),
{
    if i < t.len() {
        let e = copy_oe(&t[i]);
        let ghost v = oe_seq(t@);
        t.set(i, OddEvenMessage { lstate: false, ..e });
        proof {
            assert(oe_seq(t@) =~= retired(v, i as int));
        }
    }
}

/// Once a stored message was decoded again, it is no longer offered.
pub fn clear_sd_candidate(state: &mut Ft8Mod1, interval: IntervalKind, index: Option<usize>)
    ensures
        final(state)@ == cleared_sd(old(state)@, interval, index),
        old(state).wf() ==> final(state).wf(),
{
    let i = match index {
        Some(i) => i,
        None => {
            return;
        },
    };
    match interval {
        IntervalKind::Even => retire_at(&mut state.evencopy, i),
        IntervalKind::Odd => retire_at(&mut state.oddcopy, i),
        IntervalKind::Other => {},
    }
}

/// The last QSO message is the `RRR` of the QSO's call pair.
pub open spec fn last_is_rrr(m: Mod1View, mycall: Option<&str>, hiscall: Option<&str>) -> bool {
    m.lastrx.1 && match qso_root(mycall, hiscall) {
        Some(root) => trim(m.lastrx.2) == trim(root + seq!['R', 'R', 'R']),
        None => false,
    }
}

pub fn last_rx_is_rrr(state: &Ft8Mod1, mycall: Option<&str>, hiscall: Option<&str>) -> (r: bool)
    ensures
        r == last_is_rrr(state@, mycall, hiscall),
{
    if !state.lastrxmsg.lstate {
        return false;
    }
    let root = match crate::jtdx_calls::msgroot(mycall, hiscall) {
        Some(r) => r,
        None => {
            return false;
        },
    };
    let mut want = chars_of(root.as_str());
    want.push('R');
    want.push('R');
    want.push('R');
    proof {
        assert(want@ =~= root@ + seq!['R', 'R', 'R']);
    }
    let wt = trim_chars(&want);
    let lc = chars_of(state.lastrxmsg.lastmsg.as_str());
    let lt = trim_chars(&lc);
    crate::text::eq_chars(&lt, &wt)
}

/// The received call pairs up to the first empty one.
pub open spec fn first_empty(t: Seq<Seq<char>>) -> int {
    if exists|k: int| 0 <= k < t.len() && trim(#[trigger] t[k]).len() == 0 {
        choose|k: int| 0 <= k < t.len() && trim(#[trigger] t[k]).len() == 0 && forall|j: int| 0 <= j < k ==> trim(#[trigger] t[j]).len() != 0
    } else {
        t.len() as int
    }
}

/// A deep decode is refused: a matched-filter one after I replied to
/// another station or when it names my call late; a stored-message one
/// that names my call late or repeats a call pair already received.
pub open spec fn special_rejected(m: Mod1View, mycall: Option<&str>, source: DecodeSource, msg: Seq<char>) -> bool {
    match source {
        DecodeSource::Ft8s => m.lrepliedother || mentions_late(call_text(mycall), msg),
        DecodeSource::Ft8sd => mentions_late(call_text(mycall), msg) || match base_two_calls(msg) {
            Some(b) => exists|k: int| 0 <= k < first_empty(m.msgsrcvd) && trim(#[trigger] m.msgsrcvd[k]) == b,
            None => false,
        },
        DecodeSource::Regular => false,
    }
}

fn first_empty_index(t: &Vec<String>) -> (r: usize)
    ensures
        r as int == first_empty(strings_view(t@)),
        r <= t@.len(),
{
    let ghost v = strings_view(t@);
    let mut k: usize = 0;
    while k < t.len()
        invariant
            k <= t@.len(),
            v == strings_view(t@),
            forall|j: int| 0 <= j < k ==> trim(#[trigger] v[j]).len() != 0,
        decreases t@.len() - k,
    {
        let c = chars_of(t[k].as_str());
        let tc = trim_chars(&c);
        if tc.len() == 0 {
            proof {
                assert(trim(v[k as int]).len() == 0);
                let c = choose|c: int| 0 <= c < v.len() && trim(#[trigger] v[c]).len() == 0 && forall|j: int| 0 <= j < c ==> trim(#[trigger] v[j]).len() != 0;
                assert(c == k) by {
                    if c < k {
                        assert(trim(v[c]).len() != 0);
                    } else if c > k {
                        assert(trim(v[k as int]).len() != 0);
                    }
                }
            }
            return k;
        }
        k = k + 1;
    }
    k
}

fn pair_received(t: &Vec<String>, n: usize, base: &[char]) -> (r: bool)
    requires
        n <= t@.len(),
    ensures
        r == exists|k: int| 0 <= k < n && trim(#[trigger] strings_view(t@)[k]) == base@,
{
    let ghost v = strings_view(t@);
    let mut k: usize = 0;
    while k < n
        invariant
            k <= n <= t@.len(),
            v == strings_view(t@),
            forall|j: int| 0 <= j < k ==> trim(#[trigger] v[j]) != base@,
        decreases n - k,
    {
        let c = chars_of(t[k].as_str());
        let tc = trim_chars(&c);
        if crate::text::eq_chars(&tc, base) {
            proof {
                assert(trim(v[k as int]) == base@);
            }
            return true;
        }
        k = k + 1;
    }
    false
}

pub fn rejects_special_deep_decode(state: &Ft8Mod1, mycall: Option<&str>, source: DecodeSource, msg37: &str) -> (r: bool)
    ensures
        r == special_rejected(state@, mycall, source, msg37@),
{
    match source {
        DecodeSource::Ft8s => {
            if state.lrepliedother {
                return true;
            }
            crate::jtdx_calls::deep_message_mentions_mycall_late(mycall, msg37)
        },
        DecodeSource::Ft8sd => {
            if crate::jtdx_calls::deep_message_mentions_mycall_late(mycall, msg37) {
                return true;
            }
            let base = match crate::jtdx_calls::message_base_two_calls(msg37) {
                Some(b) => chars_of(b.as_str()),
                None => {
                    return false;
                },
            };
            let n = first_empty_index(&state.msgsrcvd);
            let r = pair_received(&state.msgsrcvd, n, &base);
            proof {
                let v = strings_view(state.msgsrcvd@);
                assert(state@.msgsrcvd == v);
                if r {
                    let k = choose|k: int| 0 <= k < n && trim(#[trigger] v[k]) == base@;
                    assert(trim(state@.msgsrcvd[k]) == base@);
                }
            }
            r
        },
        DecodeSource::Regular => false,
    }
}

/// The memory after a regular or deep decode is checked against the QSO:
/// a standard decode near the QSO frequency in which his call answers a
/// station other than me, or a CQ of his while a QSO is in progress, means
/// he replied to another station; a regular standard decode's call pair is
/// noted at the first free place of the received pairs. A decode of the
/// same text within 45 Hz of one already recorded changes nothing.
pub open spec fn deep_false_updated(
    m: Mod1View,
    mycall: Option<&str>,
    hiscall: Option<&str>,
    nqso_progress: usize,
    nfqso_mhz: i64,
    freq_mhz: i64,
    i3: usize,
    source: DecodeSource,
    msg: Seq<char>,
) -> Mod1View {
    let dupe = recorded_near(m, msg, freq_mhz);
    let near = abs_diff(freq_mhz as int, nfqso_mhz as int) < 2000;
    let m1 = if !dupe && near && (replied_other(mycall, hiscall, i3, source, msg) || his_cq_seen(hiscall, nqso_progress, msg)) {
        Mod1View { lrepliedother: true, ..m }
    } else {
        m
    };
    if !dupe && i3 == 1 && source == DecodeSource::Regular && !has_prefix(msg, cq_prefix()) {
        noted_pair(m1, msg)
    } else {
        m1
    }
}

/// A recorded decode of the same text within 45 Hz.
pub open spec fn recorded_near(m: Mod1View, msg: Seq<char>, freq_mhz: i64) -> bool {
    let n = if m.allmessages.len() < m.allfreq_mhz.len() {
        m.allmessages.len() as int
    } else {
        m.allfreq_mhz.len() as int
    };
    exists|i: int| 0 <= i < n && #[trigger] m.allmessages[i] == msg && abs_diff(m.allfreq_mhz[i] as int, freq_mhz as int) < 45000
}

/// A standard message, not from the matched filter and not to my call,
/// that carries his call as a word: he works someone else.
pub open spec fn replied_other(mycall: Option<&str>, hiscall: Option<&str>, i3: usize, source: DecodeSource, msg: Seq<char>) -> bool {
    let mc = trim(call_text(mycall));
    let hc = trim(call_text(hiscall));
    i3 == 1 && byte_len(mc) > 2 && source != DecodeSource::Ft8s && !has_prefix(msg, mc + seq![' ']) && holds(
        msg,
        seq![' '] + hc + seq![' '],
    )
}

/// His CQ (or CQ DX) while a QSO is in progress.
pub open spec fn his_cq_seen(hiscall: Option<&str>, nqso_progress: usize, msg: Seq<char>) -> bool {
    let hc = trim(call_text(hiscall));
    1 <= nqso_progress < 6 && has_prefix(msg, cq_prefix()) && byte_len(hc) > 2 && (has_prefix(msg, cq_prefix() + hc + seq![' '])
        || has_prefix(msg, seq!['C', 'Q', ' ', 'D', 'X', ' '] + hc + seq![' ']))
}

/// The call pair of a message noted at the first free place of the
/// received pairs.
pub open spec fn noted_pair(m: Mod1View, msg: Seq<char>) -> Mod1View {
    match base_two_calls(msg) {
        Some(b) => {
            let k = first_empty(m.msgsrcvd);
            if k < m.msgsrcvd.len() {
                Mod1View { msgsrcvd: m.msgsrcvd.update(k, b), ..m }
            } else {
                m
            }
        },
        None => m,
    }
}

fn is_replied_other(mycall: Option<&str>, hiscall: Option<&str>, i3: usize, source: DecodeSource, msg37: &str) -> (r: bool)
    ensures
        r == replied_other(mycall, hiscall, i3, source, msg37@),
{
    let mcv = call_chars(mycall);
    let mc = trim_chars(&mcv);
    let hcv = call_chars(hiscall);
    let hc = trim_chars(&hcv);
    let m = chars_of(msg37);
    let mut mine = copy_chars(&mc);
    mine.push(' ');
    proof {
        assert(mine@ =~= mc@ + seq![' ']);
    }
    i3 == 1 && crate::text::byte_len_chars(&mc) > 2 && source != DecodeSource::Ft8s && !starts_with(&m, &mine)
        && crate::text::contains_chars(&m, &with_space_around(&hc))
}

fn is_his_cq(hiscall: Option<&str>, nqso_progress: usize, msg37: &str) -> (r: bool)
    ensures
        r == his_cq_seen(hiscall, nqso_progress, msg37@),
{
    let hcv = call_chars(hiscall);
    let hc = trim_chars(&hcv);
    let m = chars_of(msg37);
    proof {
        assert(['C', 'Q', ' ']@ == cq_prefix());
        assert(['C', 'Q', ' ', 'D', 'X', ' ']@ == seq!['C', 'Q', ' ', 'D', 'X', ' ']);
    }
    1 <= nqso_progress && nqso_progress < 6 && starts_with(&m, &['C', 'Q', ' ']) && crate::text::byte_len_chars(&hc) > 2
        && (starts_with(&m, &prefixed_call(&['C', 'Q', ' '], &hc)) || starts_with(
        &m,
        &prefixed_call(&['C', 'Q', ' ', 'D', 'X', ' '], &hc),
    ))
}

fn note_pair(state: &mut Ft8Mod1, msg37: &str)
    ensures
        final(state)@ == noted_pair(old(state)@, msg37@),
        old(state).wf() ==> final(state).wf(),
{
    if let Some(base) = crate::jtdx_calls::message_base_two_calls(msg37) {
        let k = first_empty_index(&state.msgsrcvd);
        if k < state.msgsrcvd.len() {
            let ghost v = strings_view(state.msgsrcvd@);
            state.msgsrcvd.set(k, base);
            proof {
                assert(strings_view(state.msgsrcvd@) =~= v.update(k as int, base@));
            }
        }
    }
}

fn with_space_around(h: &[char]) -> (r: Vec<char>)
    ensures
        r@ == seq![' '] + h@ + seq![' '],
{
    let mut r: Vec<char> = Vec::new();
    r.push(' ');
    crate::dx_report::push_all(&mut r, h);
    r.push(' ');
    proof {
        assert(r@ =~= seq![' '] + h@ + seq![' ']);
    }
    r
}

fn prefixed_call(p: &[char], h: &[char]) -> (r: Vec<char>)
    ensures
        r@ == p@ + h@ + seq![' '],
{
    let mut r = copy_chars(p);
    crate::dx_report::push_all(&mut r, h);
    r.push(' ');
    proof {
        assert(r@ =~= p@ + h@ + seq![' ']);
    }
    r
}

fn recorded_nearby(state: &Ft8Mod1, msg37: &str, freq_mhz: i64) -> (r: bool)
    ensures
        r == recorded_near(state@, msg37@, freq_mhz),
{
    let ghost m = state@;
    let n = if state.allmessages.len() < state.allfreq_mhz.len() {
        state.allmessages.len()
    } else {
        state.allfreq_mhz.len()
    };
    let target = chars_of(msg37);
    let mut i: usize = 0;
    while i < n
        invariant
            i <= n,
            m == state@,
            n <= state.allmessages@.len(),
            n <= state.allfreq_mhz@.len(),
            target@ == msg37@,
            forall|k: int| 0 <= k < i ==> !(#[trigger] m.allmessages[k] == msg37@ && abs_diff(m.allfreq_mhz[k] as int, freq_mhz as int) < 45000),
        decreases n - i,
    {
        let c = chars_of(state.allmessages[i].as_str());
        let d = state.allfreq_mhz[i] as i128 - freq_mhz as i128;
        proof {
            assert(m.allmessages[i as int] == state.allmessages@[i as int]@);
        }
        if crate::text::eq_chars(&c, &target) && -45000 < d && d < 45000 {
            return true;
        }
        i = i + 1;
    }
    false
}

pub fn update_deep_false_state(
    state: &mut Ft8Mod1,
    mycall: Option<&str>,
    hiscall: Option<&str>,
    nqso_progress: usize,
    nfqso_mhz: i64,
    freq_mhz: i64,
    i3: usize,
    source: DecodeSource,
    msg37: &str,
)
    ensures
        final(state)@ == deep_false_updated(old(state)@, mycall, hiscall, nqso_progress, nfqso_mhz, freq_mhz, i3, source, msg37@),
        old(state).wf() ==> final(state).wf(),
{
    let d = freq_mhz as i128 - nfqso_mhz as i128;
    let near = -2000 < d && d < 2000;
    let dupe = recorded_nearby(state, msg37, freq_mhz);
    if !dupe && near && (is_replied_other(mycall, hiscall, i3, source, msg37) || is_his_cq(hiscall, nqso_progress, msg37)) {
        state.lrepliedother = true;
    }
    let m = chars_of(msg37);
    proof {
        assert(['C', 'Q', ' ']@ == cq_prefix());
    }
    if !dupe && i3 == 1 && source == DecodeSource::Regular && !starts_with(&m, &['C', 'Q', ' ']) {
        note_pair(state, msg37);
    }
}

/// The memory after a decode is noted: its call with its time, the
/// message in the interval's table, a message to me; and a decode of the
/// QSO's call pair at the QSO frequency (a standard one, or one from the
/// matched filter) becomes the last QSO message, while any other decode of
/// the pair marks the QSO message decoded when his call has four bytes or
/// more.
pub open spec fn qso_updated(
    m: Mod1View,
    mycall: Option<&str>,
    hiscall: Option<&str>,
    in_thread: bool,
    nfqso_mhz: i64,
    msg: Seq<char>,
    freq_mhz: i64,
    dt_ms: i64,
    interval: IntervalKind,
    i3: usize,
    l_free_text: bool,
    l_hashmsg: bool,
    source: DecodeSource,
) -> Mod1View {
    let m1 = saved_call_dt(m, msg, dt_ms, interval, l_free_text);
    let m2 = saved_odd_even(m1, mycall, msg, freq_mhz, dt_ms, interval, i3, l_free_text, l_hashmsg, source);
    let m3 = saved_incall(m2, mycall, msg, dt_ms);
    if !(in_thread && abs_diff(freq_mhz as int, nfqso_mhz as int) < 2000) {
        m3
    } else {
        match qso_root(mycall, hiscall) {
            None => m3,
            Some(root) => {
                let ft8s = source == DecodeSource::Ft8s;
                if ((i3 == 1 && !ft8s) || ft8s) && has_prefix(msg, root) {
                    Mod1View { lasthcall: call_text(hiscall), lastrx: (dt_ms, true, msg), lqsomsgdcd: true, ..m3 }
                } else if byte_len(trim(call_text(hiscall))) > 3 && !m3.lqsomsgdcd && has_prefix(msg, root) {
                    Mod1View { lqsomsgdcd: true, ..m3 }
                } else {
                    m3
                }
            },
        }
    }
}

pub fn update_qso_memory(
    state: &mut Ft8Mod1,
    mycall: Option<&str>,
    hiscall: Option<&str>,
    in_thread: bool,
    nfqso_mhz: i64,
    msg: &str,
    freq_mhz: i64,
    dt_ms: i64,
    interval: IntervalKind,
    i3: usize,
    l_free_text: bool,
    l_hashmsg: bool,
    source: DecodeSource,
)
    requires
        old(state).wf(),
    ensures
        final(state)@ == qso_updated(
            old(state)@,
            mycall,
            hiscall,
            in_thread,
            nfqso_mhz,
            msg@,
            freq_mhz,
            dt_ms,
            interval,
            i3,
            l_free_text,
            l_hashmsg,
            source,
        ),
        final(state).wf(),
{
    save_call_dt(state, msg, dt_ms, interval, l_free_text);
    save_odd_even_message(state, mycall, msg, freq_mhz, dt_ms, interval, i3, l_free_text, l_hashmsg, source);
    save_incall(state, mycall, msg, dt_ms);
    let d = freq_mhz as i128 - nfqso_mhz as i128;
    if !(in_thread && -2000 < d && d < 2000) {
        return;
    }
    let root = match crate::jtdx_calls::msgroot(mycall, hiscall) {
        Some(r) => chars_of(r.as_str()),
        None => {
            return;
        },
    };
    let m = chars_of(msg);
    let opens = starts_with(&m, &root);
    let ft8s = source == DecodeSource::Ft8s;
    if ((i3 == 1 && !ft8s) || ft8s) && opens {
        let his = crate::text::string_of(&call_chars(hiscall));
        state.lasthcall = his;
        state.lastrxmsg = LastRxMsg { xdt_ms: dt_ms, lstate: true, lastmsg: crate::text::string_of(&m) };
        state.lqsomsgdcd = true;
    } else {
        let hcv = call_chars(hiscall);
        let hc = trim_chars(&hcv);
        if crate::text::byte_len_chars(&hc) > 3 && !state.lqsomsgdcd && opens {
            state.lqsomsgdcd = true;
        }
    }
}

/// The texts a decode stands for: a special decode with a second message
/// stands for both, in order.
pub open spec fn variants_of(msg37: Seq<char>, msg37_2: Seq<char>, l_special: bool) -> Seq<Seq<char>> {
    if !l_special || trim(msg37_2).len() == 0 {
        seq![msg37]
    } else {
        seq![msg37, msg37_2]
    }
}

pub fn result_variants(msg37: &str, msg37_2: &str, l_special: bool) -> (r: Vec<String>)
    ensures
        strings_view(r@) == variants_of(msg37@, msg37_2@, l_special),
{
    let mut r: Vec<String> = Vec::new();
    r.push(crate::text::string_of(&chars_of(msg37)));
    let second = chars_of(msg37_2);
    let st = trim_chars(&second);
    if l_special && st.len() != 0 {
        r.push(crate::text::string_of(&second));
    }
    proof {
        assert(strings_view(r@) =~= variants_of(msg37@, msg37_2@, l_special));
    }
    r
}

/// Where a JTDX decode comes from for the shared evidence: a deep decode,
/// a regular one without AP, or one that AP assisted.
pub open spec fn provenance_of(source: DecodeSource, iaptype: i32) -> crate::hybrid_report::Provenance {
    match source {
        DecodeSource::Ft8s | DecodeSource::Ft8sd => crate::hybrid_report::Provenance::JtdxDeep,
        DecodeSource::Regular => if iaptype == 0 {
            crate::hybrid_report::Provenance::Regular
        } else {
            crate::hybrid_report::Provenance::A7Memory
        },
    }
}

pub fn jtdx_stream_provenance(source: DecodeSource, iaptype: i32) -> (r: crate::hybrid_report::Provenance)
    ensures
        r == provenance_of(source, iaptype),
{
    match source {
        DecodeSource::Ft8s | DecodeSource::Ft8sd => crate::hybrid_report::Provenance::JtdxDeep,
        DecodeSource::Regular => if iaptype == 0 {
            crate::hybrid_report::Provenance::Regular
        } else {
            crate::hybrid_report::Provenance::A7Memory
        },
    }
}

/// A decode of the JTDX candidate decoder as plain values.
pub struct JtdxDecode {
    pub msg37: String,
    pub msg37_2: String,
    pub l_special: bool,
    pub source: DecodeSource,
    pub i3: usize,
    pub iaptype: i32,
    pub nsnr: i32,
    pub freq_mhz: i64,
    pub dt_ms: i64,
    pub l_free_text: bool,
    pub l_hashmsg: bool,
}

/// What the bookkeeping of a decode reads of the configuration.
#[derive(Clone, Copy, Debug, PartialEq, Eq)]
pub struct QsoSettings {
    pub in_thread: bool,
    pub nfqso_mhz: i64,
    pub nqso_progress: usize,
    pub hide_dupes: bool,
    pub numthreads: usize,
}

/// The memory after one text of a decode is taken in, and whether it is
/// reported: a matched-filter decode marks the slot as having one, a
/// stored-message decode retires the stored message; a duplicate stops
/// there, and any other text is noted in the QSO memory, checked against
/// the QSO and recorded.
pub open spec fn took_text(
    m: Mod1View,
    mycall: Option<&str>,
    hiscall: Option<&str>,
    s: QsoSettings,
    d: JtdxDecode,
    text: Seq<char>,
    interval: IntervalKind,
    sd_index: Option<usize>,
) -> (Mod1View, bool) {
    let m1 = if d.source == DecodeSource::Ft8s {
        Mod1View { lft8sdec: true, ..m }
    } else {
        m
    };
    let m2 = if d.source == DecodeSource::Ft8sd {
        cleared_sd(m1, interval, sd_index)
    } else {
        m1
    };
    if is_dup(m2, text, d.nsnr, d.freq_mhz, s.hide_dupes, s.numthreads) {
        (m2, false)
    } else {
        let m3 = qso_updated(
            m2,
            mycall,
            hiscall,
            s.in_thread,
            s.nfqso_mhz,
            text,
            d.freq_mhz,
            d.dt_ms,
            interval,
            d.i3,
            d.l_free_text,
            d.l_hashmsg,
            d.source,
        );
        let m4 = deep_false_updated(m3, mycall, hiscall, s.nqso_progress, s.nfqso_mhz, d.freq_mhz, d.i3, d.source, text);
        (recorded(m4, text, d.nsnr, d.freq_mhz), true)
    }
}

/// The memory after the first `n` texts of a decode are taken in, and the
/// texts reported.
pub open spec fn took_texts(
    m: Mod1View,
    mycall: Option<&str>,
    hiscall: Option<&str>,
    s: QsoSettings,
    d: JtdxDecode,
    texts: Seq<Seq<char>>,
    n: int,
    interval: IntervalKind,
    sd_index: Option<usize>,
) -> (Mod1View, Seq<Seq<char>>)
    decreases n,
{
    if n <= 0 {
        (m, Seq::empty())
    } else {
        let (m1, out) = took_texts(m, mycall, hiscall, s, d, texts, n - 1, interval, sd_index);
        let (m2, shown) = took_text(m1, mycall, hiscall, s, d, texts[n - 1], interval, sd_index);
        (m2, if shown {
            out.push(texts[n - 1])
        } else {
            out
        })
    }
}

/// The bookkeeping of a decode of a candidate: a refused deep decode is
/// dropped whole; otherwise each of its texts is taken in, in order.
pub open spec fn took_decode(
    m: Mod1View,
    mycall: Option<&str>,
    hiscall: Option<&str>,
    s: QsoSettings,
    d: JtdxDecode,
    interval: IntervalKind,
    sd_index: Option<usize>,
) -> (Mod1View, Seq<Seq<char>>) {
    if special_rejected(m, mycall, d.source, d.msg37@) {
        (m, Seq::empty())
    } else {
        let texts = variants_of(d.msg37@, d.msg37_2@, d.l_special);
        took_texts(m, mycall, hiscall, s, d, texts, texts.len() as int, interval, sd_index)
    }
}

fn take_text(
    state: &mut Ft8Mod1,
    mycall: Option<&str>,
    hiscall: Option<&str>,
    s: &QsoSettings,
    d: &JtdxDecode,
    text: &str,
    interval: IntervalKind,
    sd_index: Option<usize>,
) -> (shown: bool)
    requires
        old(state).wf(),
        old(state).ndecodes < usize::MAX,
    ensures
        (final(state)@, shown) == took_text(old(state)@, mycall, hiscall, *s, *d, text@, interval, sd_index),
        final(state).wf(),
        final(state).ndecodes <= old(state).ndecodes + 1,
{
    if d.source == DecodeSource::Ft8s {
        state.lft8sdec = true;
    }
    if d.source == DecodeSource::Ft8sd {
        clear_sd_candidate(state, interval, sd_index);
    }
    if is_duplicate_decode(state, s.hide_dupes, text, d.nsnr, d.freq_mhz, s.numthreads) {
        return false;
    }
    update_qso_memory(
        state,
        mycall,
        hiscall,
        s.in_thread,
        s.nfqso_mhz,
        text,
        d.freq_mhz,
        d.dt_ms,
        interval,
        d.i3,
        d.l_free_text,
        d.l_hashmsg,
        d.source,
    );
    update_deep_false_state(state, mycall, hiscall, s.nqso_progress, s.nfqso_mhz, d.freq_mhz, d.i3, d.source, text);
    save_decode_state(state, text, d.nsnr, d.freq_mhz);
    true
}

/// Takes a decode of a candidate into the memory and gives the texts to
/// report.
pub fn record_ft8b_result(
    state: &mut Ft8Mod1,
    mycall: Option<&str>,
    hiscall: Option<&str>,
    settings: &QsoSettings,
    decode: &JtdxDecode,
    interval: IntervalKind,
    sd_index: Option<usize>,
) -> (r: Vec<String>)
    requires
        old(state).wf(),
        old(state).ndecodes < usize::MAX - 2,
    ensures
        (final(state)@, strings_view(r@)) == took_decode(old(state)@, mycall, hiscall, *settings, *decode, interval, sd_index),
        final(state).wf(),
{
    let mut out: Vec<String> = Vec::new();
    if rejects_special_deep_decode(state, mycall, decode.source, decode.msg37.as_str()) {
        proof {
            assert(strings_view(out@) =~= Seq::<Seq<char>>::empty());
        }
        return out;
    }
    let texts = result_variants(decode.msg37.as_str(), decode.msg37_2.as_str(), decode.l_special);
    let ghost tv = strings_view(texts@);
    let ghost m0 = state@;
    proof {
        assert(texts@.len() == tv.len());
    }
    let mut k: usize = 0;
    while k < texts.len()
        invariant
            k <= texts@.len() <= 2,
            tv == strings_view(texts@),
            tv == variants_of(decode.msg37@, decode.msg37_2@, decode.l_special),
            state.wf(),
            state.ndecodes <= m0.ndecodes + k,
            m0.ndecodes < usize::MAX - 2,
            (state@, strings_view(out@)) == took_texts(m0, mycall, hiscall, *settings, *decode, tv, k as int, interval, sd_index),
        decreases texts@.len() - k,
    {
        let text = texts[k].as_str();
        let shown = take_text(state, mycall, hiscall, settings, decode, text, interval, sd_index);
        if shown {
            let ghost before = strings_view(out@);
            out.push(crate::text::string_of(&chars_of(text)));
            proof {
                assert(strings_view(out@) =~= before.push(tv[k as int]));
            }
        }
        k = k + 1;
    }
    out
}

/// A regular decode taken in twice in one slot is reported at most once:
/// the second time it repeats the decode recorded the first time.
pub proof fn lemma_repeated_decode_reported_once(
    m: Mod1View,
    mycall: Option<&str>,
    hiscall: Option<&str>,
    s: QsoSettings,
    d: JtdxDecode,
    interval: IntervalKind,
    sd_index: Option<usize>,
)
    requires
        m.allmessages.len() == 200,
        m.allsnrs.len() == 200,
        m.allfreq_mhz.len() == 200,
        m.ndecodes < 200,
        d.source == DecodeSource::Regular,
        !d.l_special,
    ensures
        ({
            let (m1, out1) = took_decode(m, mycall, hiscall, s, d, interval, sd_index);
            let (m2, out2) = took_decode(m1, mycall, hiscall, s, d, interval, sd_index);
            out1.len() <= 1 && out2.len() == 0
        }),
{
    let text = d.msg37@;
    assert(variants_of(d.msg37@, d.msg37_2@, d.l_special) =~= seq![text]);
    reveal_with_fuel(took_texts, 2);
    let (t1, shown) = took_text(m, mycall, hiscall, s, d, text, interval, sd_index);
    assert(took_texts(m, mycall, hiscall, s, d, seq![text], 1, interval, sd_index).0 == t1);
    if shown {
        let m3 = qso_updated(m, mycall, hiscall, s.in_thread, s.nfqso_mhz, text, d.freq_mhz, d.dt_ms, interval, d.i3, d.l_free_text, d.l_hashmsg, d.source);
        let m4 = deep_false_updated(m3, mycall, hiscall, s.nqso_progress, s.nfqso_mhz, d.freq_mhz, d.i3, d.source, text);
        assert(m4.allmessages == m.allmessages && m4.allsnrs == m.allsnrs && m4.allfreq_mhz == m.allfreq_mhz && m4.ndecodes == m.ndecodes);
        lemma_recorded_decode_is_duplicate(m4, text, d.nsnr, d.freq_mhz, s.hide_dupes, s.numthreads);
    }
    let (t2, shown2) = took_text(t1, mycall, hiscall, s, d, text, interval, sd_index);
    assert(!shown2);
    assert(took_texts(t1, mycall, hiscall, s, d, seq![text], 1, interval, sd_index).1.len() == 0);
}

/// The `RRR` of the QSO's call pair, decoded as a standard message at the
/// QSO frequency, becomes the last QSO message, which then reads as `RRR`.
pub proof fn lemma_focused_rrr_is_last_rrr(
    m: Mod1View,
    mycall: Option<&str>,
    hiscall: Option<&str>,
    nfqso_mhz: i64,
    freq_mhz: i64,
    dt_ms: i64,
    interval: IntervalKind,
    l_free_text: bool,
    l_hashmsg: bool,
    source: DecodeSource,
)
    requires
        qso_root(mycall, hiscall) is Some,
        abs_diff(freq_mhz as int, nfqso_mhz as int) < 2000,
        source != DecodeSource::Ft8sd,
    ensures
        ({
            let msg = qso_root(mycall, hiscall)->0 + seq!['R', 'R', 'R'];
            let r = qso_updated(m, mycall, hiscall, true, nfqso_mhz, msg, freq_mhz, dt_ms, interval, 1, l_free_text, l_hashmsg, source);
            &&& r.lastrx == (dt_ms, true, msg)
            &&& r.lqsomsgdcd
            &&& last_is_rrr(r, mycall, hiscall)
        }),
{
    let root = qso_root(mycall, hiscall)->0;
    let msg = root + seq!['R', 'R', 'R'];
    assert(msg.subrange(0, root.len() as int) =~= root);
}

proof fn lemma_retired_not_offered(t: Seq<OddEvenView>, i: int, freq_mhz: i64, dt_ms: i64)
    ensures
        last_sd(retired(t, i), freq_mhz, dt_ms) != Some(i),
{
    let r = retired(t, i);
    assert(r.len() == t.len());
    if 0 <= i < t.len() {
        assert(!r[i].2);
        assert(!sd_match(r[i], freq_mhz, dt_ms));
    }
    if exists|k: int| 0 <= k < r.len() && sd_match(#[trigger] r[k], freq_mhz, dt_ms) {
        let c = choose|k: int|
            0 <= k < r.len() && sd_match(#[trigger] r[k], freq_mhz, dt_ms) && forall|j: int|
                k < j < r.len() ==> !sd_match(#[trigger] r[j], freq_mhz, dt_ms);
        if exists|k: int|
            0 <= k < r.len() && sd_match(#[trigger] r[k], freq_mhz, dt_ms) && forall|j: int|
                k < j < r.len() ==> !sd_match(#[trigger] r[j], freq_mhz, dt_ms) {
            assert(sd_match(r[c], freq_mhz, dt_ms));
            assert(c != i);
        } else {
            let w = choose|k: int| 0 <= k < r.len() && sd_match(#[trigger] r[k], freq_mhz, dt_ms);
            lemma_last_match_exists(r, w, freq_mhz, dt_ms);
        }
    }
}

proof fn lemma_last_match_exists(r: Seq<OddEvenView>, w: int, freq_mhz: i64, dt_ms: i64)
    requires
        0 <= w < r.len(),
        sd_match(r[w], freq_mhz, dt_ms),
    ensures
        exists|k: int|
            0 <= k < r.len() && sd_match(#[trigger] r[k], freq_mhz, dt_ms) && forall|j: int|
                k < j < r.len() ==> !sd_match(#[trigger] r[j], freq_mhz, dt_ms),
    decreases r.len() - w,
{
    if exists|j: int| w < j < r.len() && sd_match(#[trigger] r[j], freq_mhz, dt_ms) {
        let j = choose|j: int| w < j < r.len() && sd_match(#[trigger] r[j], freq_mhz, dt_ms);
        lemma_last_match_exists(r, j, freq_mhz, dt_ms);
    } else {
        assert(forall|j: int| w < j < r.len() ==> !sd_match(#[trigger] r[j], freq_mhz, dt_ms));
    }
}

/// A stored message whose repeat was decoded is no longer offered for the
/// same interval parity.
pub proof fn lemma_cleared_candidate_not_offered(m: Mod1View, interval: IntervalKind, i: usize, freq_mhz: i64, dt_ms: i64)
    ensures
        last_sd(sd_table(cleared_sd(m, interval, Some(i)), interval), freq_mhz, dt_ms) != Some(i as int),
{
    match interval {
        IntervalKind::Even => lemma_retired_not_offered(m.evencopy, i as int, freq_mhz, dt_ms),
        IntervalKind::Odd => lemma_retired_not_offered(m.oddcopy, i as int, freq_mhz, dt_ms),
        IntervalKind::Other => {},
    }
}

/// After an interval starts, its table is empty and holds none of the
/// interval's messages yet: no stored message is live in it.
pub proof fn lemma_rotation_keeps_previous_table(m: Mod1View, interval: IntervalKind)
    ensures
        interval == IntervalKind::Even ==> rotated(m, interval).evencopy == m.even && rotated(m, interval).even.len() == m.even.len()
            && forall|k: int| 0 <= k < m.even.len() ==> !(#[trigger] rotated(m, interval).even[k]).2,
        interval == IntervalKind::Odd ==> rotated(m, interval).oddcopy == m.odd && rotated(m, interval).odd.len() == m.odd.len()
            && forall|k: int| 0 <= k < m.odd.len() ==> !(#[trigger] rotated(m, interval).odd[k]).2,
{
}

} // verus!
