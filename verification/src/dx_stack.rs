//! The bookkeeping of a stack of per-slot soft-bit fields of one DX signal:
//! which observations may join it, how deep it grows, and when a sustained
//! change of the best hypothesis starts it afresh. The fields themselves
//! (`T`) and their running sum are carried, not inspected. Frequencies are
//! in millihertz, times in milliseconds.
use vstd::prelude::*;
use crate::dx_matched::PhysicalAdmissionGate;
use crate::ft8b_plan::abs_diff;

verus! {

/// The most slots a stack holds; older ones fall out.
pub const MAX_STACK_DEPTH: usize = 8;

/// Where a stack lives: the slot parity and the frequency bucket.
#[derive(Clone, Copy, Debug, PartialEq, Eq, Structural)]
pub struct StackKey {
    pub parity: usize,
    pub freq_bin: i32,
}

/// One stack: its key, where its first field was, the fields of its slots
/// (oldest first), the slot it last took in, and the hypothesis it follows
/// with the count of consecutive slots that disagreed with it.
pub struct SlotStack<T: Copy> {
    key: StackKey,
    anchor_freq_mhz: i64,
    anchor_dt_ms: i64,
    slot_fields: Vec<T>,
    last_nutc: u32,
    best_hyp: Option<usize>,
    flip_run: u8,
}

/// A stack as plain values.
pub struct StackView<T> {
    pub key: StackKey,
    pub anchor_freq_mhz: i64,
    pub anchor_dt_ms: i64,
    pub fields: Seq<T>,
    pub last_nutc: u32,
    pub best_hyp: Option<usize>,
    pub flip_run: u8,
}

impl<T: Copy> View for SlotStack<T> {
    type V = StackView<T>;

    closed spec fn view(&self) -> StackView<T> {
        StackView {
            key: self.key,
            anchor_freq_mhz: self.anchor_freq_mhz,
            anchor_dt_ms: self.anchor_dt_ms,
            fields: self.slot_fields@,
            last_nutc: self.last_nutc,
            best_hyp: self.best_hyp,
            flip_run: self.flip_run,
        }
    }
}

/// The window after a field is pushed: the oldest leaves when it is full.
pub open spec fn pushed<T>(w: Seq<T>, x: T) -> Seq<T> {
    if w.len() >= MAX_STACK_DEPTH {
        w.drop_first().push(x)
    } else {
        w.push(x)
    }
}

/// The tracker after a slot whose confident best hypothesis is `h`: the
/// followed hypothesis, the run of disagreeing slots, and whether the
/// stack starts afresh (a second disagreeing slot in a row).
pub open spec fn flip_step(best: Option<usize>, run: u8, h: usize) -> (Option<usize>, u8, bool) {
    match best {
        None => (Some(h), 0u8, false),
        Some(e) => if e == h {
            (best, 0u8, false)
        } else {
            let r: u8 = if run == 255 { 255u8 } else { (run + 1) as u8 };
            (best, r, r >= 2)
        },
    }
}

/// Whether an observation lies close enough to the stack's anchor and
/// reaches the floor of the admission rule.
pub open spec fn admissible<T>(s: StackView<T>, freq_mhz: i64, dt_ms: i64, nsync: usize, syncavemax_milli: i64, gate: PhysicalAdmissionGate) -> bool {
    &&& abs_diff(freq_mhz as int, s.anchor_freq_mhz as int) <= gate.freq_tolerance_mhz
    &&& abs_diff(dt_ms as int, s.anchor_dt_ms as int) <= gate.dt_tolerance_ms
    &&& nsync >= gate.min_nsync
    &&& syncavemax_milli >= gate.min_syncavemax_milli
}

/// The stack after an admissible field joins it; `hyp` is the slot's
/// confident best hypothesis, if it has one.
pub open spec fn joined<T>(s: StackView<T>, field: T, nutc: u32, hyp: Option<usize>) -> StackView<T> {
    match hyp {
        Some(h) => {
            let (b, r, reset) = flip_step(s.best_hyp, s.flip_run, h);
            if reset {
                StackView { fields: seq![field], last_nutc: nutc, best_hyp: Some(h), flip_run: 0u8, ..s }
            } else {
                StackView { fields: pushed(s.fields, field), last_nutc: nutc, best_hyp: b, flip_run: r, ..s }
            }
        },
        None => StackView { fields: pushed(s.fields, field), last_nutc: nutc, ..s },
    }
}

/// The distance between two values, computed without overflow.
pub fn abs_diff_wide(a: i64, b: i64) -> (d: i128)
    ensures
        d == abs_diff(a as int, b as int),
        0 <= d <= u64::MAX,
{
    let x = a as i128 - b as i128;
    if x >= 0 {
        x
    } else {
        -x
    }
}

/// How a stack ranks as the decode candidate of an observation.
#[derive(Clone, Copy, Debug, PartialEq, Eq, Structural)]
pub struct StackDecodePriority {
    pub depth: u32,
    pub syncavemax_milli: i64,
    pub nsync: usize,
    pub distance_to_focus_mhz: u64,
}

/// The priority a stack of `depth` slots anchored at `anchor` gets for an
/// observation near `focus`.
pub open spec fn priority_of<T>(s: StackView<T>, nsync: usize, syncavemax_milli: i64, focus_mhz: i64) -> StackDecodePriority {
    StackDecodePriority {
        depth: (s.fields.len() + 1) as u32,
        syncavemax_milli,
        nsync,
        distance_to_focus_mhz: abs_diff(s.anchor_freq_mhz as int, focus_mhz as int) as u64,
    }
}

/// `a` ranks below `b`: a shallower stack, then a weaker sync, then fewer
/// sync tones, then a farther anchor.
pub open spec fn priority_below(a: StackDecodePriority, b: StackDecodePriority) -> bool {
    ||| a.depth < b.depth
    ||| (a.depth == b.depth && a.syncavemax_milli < b.syncavemax_milli)
    ||| (a.depth == b.depth && a.syncavemax_milli == b.syncavemax_milli && a.nsync < b.nsync)
    ||| (a.depth == b.depth && a.syncavemax_milli == b.syncavemax_milli && a.nsync == b.nsync
        && a.distance_to_focus_mhz > b.distance_to_focus_mhz)
}

/// Whether `a` ranks below `b`.
pub fn is_below(a: &StackDecodePriority, b: &StackDecodePriority) -> (r: bool)
    ensures
        r == priority_below(*a, *b),
{
    if a.depth != b.depth {
        a.depth < b.depth
    } else if a.syncavemax_milli != b.syncavemax_milli {
        a.syncavemax_milli < b.syncavemax_milli
    } else if a.nsync != b.nsync {
        a.nsync < b.nsync
    } else {
        a.distance_to_focus_mhz > b.distance_to_focus_mhz
    }
}

impl<T: Copy> SlotStack<T> {
    #[verifier::type_invariant]
    spec fn depth_bounded(&self) -> bool {
        1 <= self.slot_fields@.len() <= MAX_STACK_DEPTH
    }

    /// A stack of one slot, anchored where its first field was.
    pub fn new(key: StackKey, freq_mhz: i64, dt_ms: i64, field: T, nutc: u32) -> (s: Self)
        ensures
            s@ == (StackView { key, anchor_freq_mhz: freq_mhz, anchor_dt_ms: dt_ms, fields: seq![field], last_nutc: nutc, best_hyp: None::<usize>, flip_run: 0u8 }),
    {
        let mut slot_fields: Vec<T> = Vec::new();
        slot_fields.push(field);
        SlotStack { key, anchor_freq_mhz: freq_mhz, anchor_dt_ms: dt_ms, slot_fields, last_nutc: nutc, best_hyp: None, flip_run: 0 }
    }

    pub fn key(&self) -> (k: StackKey)
        ensures
            k == self@.key,
    {
        self.key
    }

    /// How many slots the stack holds: between one and the cap.
    pub fn depth(&self) -> (d: u32)
        ensures
            d == self@.fields.len(),
            1 <= d <= MAX_STACK_DEPTH,
    {
        proof {
            use_type_invariant(self);
        }
        self.slot_fields.len() as u32
    }

    pub fn last_seen_nutc(&self) -> (n: u32)
        ensures
            n == self@.last_nutc,
    {
        self.last_nutc
    }

    /// Where the stack's first field was.
    pub fn anchor(&self) -> (a: (i64, i64))
        ensures
            a == (self@.anchor_freq_mhz, self@.anchor_dt_ms),
    {
        (self.anchor_freq_mhz, self.anchor_dt_ms)
    }

    /// The fields of the stack's slots, oldest first.
    pub fn slot_fields(&self) -> (f: &[T])
        ensures
            f@ == self@.fields,
    {
        self.slot_fields.as_slice()
    }

    /// Whether an observation may join the stack.
    pub fn can_admit(&self, freq_mhz: i64, dt_ms: i64, nsync: usize, syncavemax_milli: i64, gate: PhysicalAdmissionGate) -> (r: bool)
        ensures
            r == admissible(self@, freq_mhz, dt_ms, nsync, syncavemax_milli, gate),
    {
        let df = abs_diff_wide(freq_mhz, self.anchor_freq_mhz);
        let dd = abs_diff_wide(dt_ms, self.anchor_dt_ms);
        df <= gate.freq_tolerance_mhz as i128 && dd <= gate.dt_tolerance_ms as i128 && gate.passes_floor(nsync, syncavemax_milli)
    }

    /// The rank of the stack as a decode candidate for an observation: the
    /// depth it would reach, the observation's sync strength and tone count,
    /// and how far the stack's anchor lies from the focus.
    pub fn decode_priority(&self, nsync: usize, syncavemax_milli: i64, focus_mhz: i64) -> (p: StackDecodePriority)
        ensures
            p == priority_of(self@, nsync, syncavemax_milli, focus_mhz),
    {
        proof {
            use_type_invariant(self);
        }
        let d = abs_diff_wide(self.anchor_freq_mhz, focus_mhz);
        StackDecodePriority {
            depth: self.slot_fields.len() as u32 + 1,
            syncavemax_milli,
            nsync,
            distance_to_focus_mhz: d as u64,
        }
    }

    fn accumulate(&mut self, field: T, nutc: u32)
        ensures
            final(self)@ == (StackView { fields: pushed(old(self)@.fields, field), last_nutc: nutc, ..old(self)@ }),
    {
        proof {
            use_type_invariant(&*self);
        }
        let start: usize = if self.slot_fields.len() >= MAX_STACK_DEPTH { 1 } else { 0 };
        let mut fields: Vec<T> = Vec::new();
        let mut i: usize = start;
        while i < self.slot_fields.len()
            invariant
                start <= i <= self.slot_fields@.len(),
                self.slot_fields@ == old(self)@.fields,
                fields@ == self.slot_fields@.subrange(start as int, i as int),
            decreases self.slot_fields@.len() - i,
        {
            fields.push(self.slot_fields[i]);
            i = i + 1;
        }
        fields.push(field);
        assert(fields@ =~= pushed(old(self)@.fields, field));
        self.slot_fields = fields;
        self.last_nutc = nutc;
    }

    /// Takes in an observation when it is admissible, and says whether it
    /// did. `hyp` is the slot's confident best hypothesis, if any: a second
    /// slot in a row that confidently disagrees with the followed
    /// hypothesis empties the stack, which then follows the new one.
    pub fn admit_with_hypotheses(&mut self, freq_mhz: i64, dt_ms: i64, nsync: usize, syncavemax_milli: i64, field: T, nutc: u32, gate: PhysicalAdmissionGate, hyp: Option<usize>) -> (r: bool)
        ensures
            r == admissible(old(self)@, freq_mhz, dt_ms, nsync, syncavemax_milli, gate),
            final(self)@ == if r { joined(old(self)@, field, nutc, hyp) } else { old(self)@ },
    {
        proof {
            use_type_invariant(&*self);
        }
        if !self.can_admit(freq_mhz, dt_ms, nsync, syncavemax_milli, gate) {
            return false;
        }
        match hyp {
            Some(h) => {
                let (b, run, reset) = match self.best_hyp {
                    None => (Some(h), 0u8, false),
                    Some(e) => if e == h {
                        (self.best_hyp, 0u8, false)
                    } else {
                        let r: u8 = if self.flip_run == 255 { 255u8 } else { self.flip_run + 1 };
                        (self.best_hyp, r, r >= 2)
                    },
                };
                if reset {
                    let mut fields: Vec<T> = Vec::new();
                    fields.push(field);
                    self.slot_fields = fields;
                    self.last_nutc = nutc;
                    self.best_hyp = Some(h);
                    self.flip_run = 0;
                } else {
                    self.best_hyp = b;
                    self.flip_run = run;
                    self.accumulate(field, nutc);
                }
            },
            None => {
                self.accumulate(field, nutc);
            },
        }
        true
    }
}

/// A stack never holds more than the cap: once full, a new slot pushes the
/// oldest out and the rest keep their order.
pub proof fn lemma_depth_cap_drops_oldest<T>(s: StackView<T>, field: T, nutc: u32)
    requires
        s.fields.len() == MAX_STACK_DEPTH,
        s.best_hyp is None,
    ensures
        joined(s, field, nutc, None).fields.len() == MAX_STACK_DEPTH,
        joined(s, field, nutc, None).fields == s.fields.subrange(1, MAX_STACK_DEPTH as int).push(field),
{
    assert(s.fields.drop_first() =~= s.fields.subrange(1, MAX_STACK_DEPTH as int));
}

/// One slot that confidently disagrees with the followed hypothesis keeps
/// the stack; a second one in a row empties it, keeping only that slot,
/// which then follows the new hypothesis.
pub proof fn lemma_sustained_flip_resets<T>(s: StackView<T>, f1: T, n1: u32, f2: T, n2: u32, a: usize, b: usize)
    requires
        s.best_hyp == Some(a),
        s.flip_run == 0,
        a != b,
        1 <= s.fields.len() <= MAX_STACK_DEPTH,
    ensures
        joined(s, f1, n1, Some(b)).fields == pushed(s.fields, f1),
        joined(s, f1, n1, Some(b)).best_hyp == Some(a),
        joined(joined(s, f1, n1, Some(b)), f2, n2, Some(b)).fields == seq![f2],
        joined(joined(s, f1, n1, Some(b)), f2, n2, Some(b)).best_hyp == Some(b),
        joined(joined(s, f1, n1, Some(b)), f2, n2, Some(b)).flip_run == 0,
{
}

/// A slot that agrees with the followed hypothesis clears the run of
/// disagreement, so disagreeing slots must come in a row to reset.
pub proof fn lemma_agreement_clears_flip_run<T>(s: StackView<T>, f1: T, n1: u32, f2: T, n2: u32, f3: T, n3: u32, a: usize, b: usize)
    requires
        s.best_hyp == Some(a),
        s.flip_run == 0,
        a != b,
    ensures
        ({
            let s3 = joined(joined(joined(s, f1, n1, Some(b)), f2, n2, Some(a)), f3, n3, Some(b));
            &&& s3.best_hyp == Some(a)
            &&& s3.flip_run == 1
            &&& s3.fields == pushed(pushed(pushed(s.fields, f1), f2), f3)
        }),
{
}

} // verus!
