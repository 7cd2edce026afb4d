//! The stacks of the deep search on the DX target, and the plan of one
//! slot: which stack each observation would join, in which order the
//! stacked decodes run, which observations open a stack, and what the slot
//! leaves behind. The soft-bit fields (`T`) and the decodes themselves are
//! carried, not inspected. Frequencies are in millihertz, times in
//! milliseconds.
use vstd::prelude::*;
use crate::dx_context::{seconds_of, slots_between, slots_between_spec};
use crate::dx_matched::PhysicalAdmissionGate;
use crate::dx_stack::{
    admissible, is_below, joined, priority_below, priority_of, SlotStack, StackDecodePriority,
    StackKey, StackView,
};

verus! {

/// What the stack logic reads of one observation of a slot.
#[derive(Clone, Copy, Debug, PartialEq, Eq, Structural)]
pub struct DeepFieldObs {
    pub focus_mhz: i64,
    pub freq_mhz: i64,
    pub dt_ms: i64,
    pub nsync: usize,
    pub syncavemax_milli: i64,
}

/// A stack chosen for an observation: the stack, the observation, and the
/// stack's priority for it.
#[derive(Clone, Copy, Debug, PartialEq, Eq, Structural)]
pub struct StackDecodeCandidate {
    pub idx: usize,
    pub input_idx: usize,
    pub priority: StackDecodePriority,
}

/// The frequency bucket of a focus: the focus in hertz rounded half away
/// from zero, held to the `i32` range.
pub open spec fn freq_bin_spec(focus_mhz: i64) -> i32 {
    let r: int = if focus_mhz >= 0 {
        (focus_mhz + 500) / 1000
    } else {
        -((-focus_mhz + 500) / 1000)
    };
    if r > i32::MAX {
        i32::MAX
    } else if r < i32::MIN {
        i32::MIN
    } else {
        r as i32
    }
}

/// The frequency bucket of a focus.
pub fn freq_bin_of(focus_mhz: i64) -> (b: i32)
    ensures
        b == freq_bin_spec(focus_mhz),
{
    let f = focus_mhz as i128;
    let r: i128 = if f >= 0 {
        (f + 500) / 1000
    } else {
        -((-f + 500) / 1000)
    };
    if r > i32::MAX as i128 {
        i32::MAX
    } else if r < i32::MIN as i128 {
        i32::MIN
    } else {
        r as i32
    }
}

/// The key of an observation's stacks in a slot of `parity`.
pub open spec fn key_of(parity: usize, o: DeepFieldObs) -> StackKey {
    StackKey { parity, freq_bin: freq_bin_spec(o.focus_mhz) }
}

/// Stack `i` may take in observation `o`.
pub open spec fn eligible<T>(s: StackView<T>, key: StackKey, o: DeepFieldObs, gate: PhysicalAdmissionGate) -> bool {
    s.key == key && admissible(s, o.freq_mhz, o.dt_ms, o.nsync, o.syncavemax_milli, gate)
}

/// The candidate of stack `i` for observation `k`.
pub open spec fn candidate_of<T>(stacks: Seq<StackView<T>>, i: int, k: usize, o: DeepFieldObs) -> StackDecodeCandidate {
    StackDecodeCandidate { idx: i as usize, input_idx: k, priority: priority_of(stacks[i], o.nsync, o.syncavemax_milli, o.focus_mhz) }
}

/// The best stack among the first `n` for an observation: the last of
/// those that rank highest.
pub open spec fn best_among<T>(stacks: Seq<StackView<T>>, n: int, key: StackKey, k: usize, o: DeepFieldObs, gate: PhysicalAdmissionGate) -> Option<StackDecodeCandidate>
    decreases n,
{
    if n <= 0 {
        None
    } else {
        let prev = best_among(stacks, n - 1, key, k, o, gate);
        if eligible(stacks[n - 1], key, o, gate) {
            let c = candidate_of(stacks, n - 1, k, o);
            match prev {
                Some(p) => if priority_below(c.priority, p.priority) { prev } else { Some(c) },
                None => Some(c),
            }
        } else {
            prev
        }
    }
}

/// The stack an observation would join and decode with, if any.
pub open spec fn best_candidate_spec<T>(stacks: Seq<StackView<T>>, key: StackKey, k: usize, o: DeepFieldObs, gate: PhysicalAdmissionGate) -> Option<StackDecodeCandidate> {
    best_among(stacks, stacks.len() as int, key, k, o, gate)
}

/// Candidate `x` runs before `y`: a higher rank, or the same rank and an
/// earlier observation.
pub open spec fn runs_before(x: StackDecodeCandidate, y: StackDecodeCandidate) -> bool {
    priority_below(y.priority, x.priority) || (x.priority == y.priority && x.input_idx < y.input_idx)
}

/// The candidates run highest rank first, ties in observation order.
pub open spec fn run_order(c: Seq<StackDecodeCandidate>) -> bool {
    forall|a: int, b: int| 0 <= a < b < c.len() ==> runs_before(#[trigger] c[a], #[trigger] c[b])
}

/// The stacks a slot would decode with, one per observation that has one,
/// in observation order.
pub open spec fn candidates_upto<T>(stacks: Seq<StackView<T>>, parity: usize, obs: Seq<DeepFieldObs>, gate: PhysicalAdmissionGate, n: int) -> Seq<StackDecodeCandidate>
    decreases n,
{
    if n <= 0 {
        Seq::empty()
    } else {
        let prev = candidates_upto(stacks, parity, obs, gate, n - 1);
        match best_candidate_spec(stacks, key_of(parity, obs[n - 1]), (n - 1) as usize, obs[n - 1], gate) {
            Some(c) => prev.push(c),
            None => prev,
        }
    }
}

/// The observations of a slot that open a stack: those no stack takes in
/// and that reach the floor, with their keys, in observation order.
pub open spec fn opens_upto<T>(stacks: Seq<StackView<T>>, parity: usize, obs: Seq<DeepFieldObs>, gate: PhysicalAdmissionGate, n: int) -> Seq<(StackKey, usize)>
    decreases n,
{
    if n <= 0 {
        Seq::empty()
    } else {
        let prev = opens_upto(stacks, parity, obs, gate, n - 1);
        let o = obs[n - 1];
        if best_candidate_spec(stacks, key_of(parity, o), (n - 1) as usize, o, gate) is None
            && o.nsync >= gate.min_nsync && o.syncavemax_milli >= gate.min_syncavemax_milli {
            prev.push((key_of(parity, o), (n - 1) as usize))
        } else {
            prev
        }
    }
}

/// The stacks still within 16 slots of `nutc`.
pub open spec fn aged<T>(stacks: Seq<StackView<T>>, nutc: u32) -> Seq<StackView<T>>
    decreases stacks.len(),
{
    if stacks.len() == 0 {
        stacks
    } else if slots_between_spec(stacks.last().last_nutc, nutc) <= 16 {
        aged(stacks.drop_last(), nutc).push(stacks.last())
    } else {
        aged(stacks.drop_last(), nutc)
    }
}

/// The best stack of an observation is named for that observation.
pub proof fn lemma_best_names_input<T>(stacks: Seq<StackView<T>>, n: int, key: StackKey, k: usize, o: DeepFieldObs, gate: PhysicalAdmissionGate)
    ensures
        best_among(stacks, n, key, k, o, gate) matches Some(c) ==> c.input_idx == k,
    decreases n,
{
    if n > 0 {
        lemma_best_names_input(stacks, n - 1, key, k, o, gate);
    }
}

/// Ranking below is transitive.
pub proof fn lemma_below_transitive(a: StackDecodePriority, b: StackDecodePriority, c: StackDecodePriority)
    requires
        priority_below(a, b) || a == b,
        priority_below(b, c),
    ensures
        priority_below(a, c),
{
}

/// Of two different priorities, one ranks below the other.
pub proof fn lemma_below_total(a: StackDecodePriority, b: StackDecodePriority)
    requires
        !priority_below(a, b),
    ensures
        priority_below(b, a) || a == b,
{
}

/// The plan of one slot: the stacked decodes in the order they run, and
/// the observations that open a stack.
pub struct SlotPlan {
    pub candidates: Vec<StackDecodeCandidate>,
    pub opens: Vec<(StackKey, usize)>,
}

/// A decode of the slot that feeds its stack: the stack, the observation,
/// its field, and the slot's confident best hypothesis, if any.
#[derive(Clone, Copy)]
pub struct StackCommit<T: Copy> {
    pub idx: usize,
    pub obs: DeepFieldObs,
    pub field: T,
    pub hyp: Option<usize>,
}

/// An observation that opens a stack: its key, where it was, its field.
#[derive(Clone, Copy)]
pub struct StackOpen<T: Copy> {
    pub key: StackKey,
    pub obs: DeepFieldObs,
    pub field: T,
}

/// The stacks after the decodes of a slot fed theirs, in order.
pub open spec fn committed<T: Copy>(stacks: Seq<StackView<T>>, commits: Seq<StackCommit<T>>, nutc: u32, gate: PhysicalAdmissionGate) -> Seq<StackView<T>>
    decreases commits.len(),
{
    if commits.len() == 0 {
        stacks
    } else {
        let prev = committed(stacks, commits.drop_last(), nutc, gate);
        let c = commits.last();
        let s = prev[c.idx as int];
        if admissible(s, c.obs.freq_mhz, c.obs.dt_ms, c.obs.nsync, c.obs.syncavemax_milli, gate) {
            prev.update(c.idx as int, joined(s, c.field, nutc, c.hyp))
        } else {
            prev
        }
    }
}

/// A stack of one slot opened by an observation.
pub open spec fn opened_stack<T: Copy>(o: StackOpen<T>, nutc: u32) -> StackView<T> {
    StackView {
        key: o.key,
        anchor_freq_mhz: o.obs.freq_mhz,
        anchor_dt_ms: o.obs.dt_ms,
        fields: seq![o.field],
        last_nutc: nutc,
        best_hyp: None,
        flip_run: 0u8,
    }
}

/// The deep-search stacks of the target.
pub struct DeepStacks<T: Copy> {
    stacks: Vec<SlotStack<T>>,
}

pub open spec fn stack_views<T: Copy>(v: Seq<SlotStack<T>>) -> Seq<StackView<T>> {
    v.map_values(|s: SlotStack<T>| s@)
}

impl<T: Copy> View for DeepStacks<T> {
    type V = Seq<StackView<T>>;

    closed spec fn view(&self) -> Seq<StackView<T>> {
        stack_views(self.stacks@)
    }
}

impl<T: Copy> DeepStacks<T> {
    pub fn new() -> (d: Self)
        ensures
            d@ == Seq::<StackView<T>>::empty(),
    {
        let d = DeepStacks { stacks: Vec::new() };
        assert(d@ =~= Seq::<StackView<T>>::empty());
        d
    }

    /// The number of stacks.
    pub fn deep_stack_count(&self) -> (n: usize)
        ensures
            n == self@.len(),
    {
        self.stacks.len()
    }

    /// The stacks, oldest first.
    pub fn stacks(&self) -> (s: &[SlotStack<T>])
        ensures
            stack_views(s@) == self@,
    {
        self.stacks.as_slice()
    }

    /// The stack observation `input_idx` would join and decode with: of the
    /// stacks with its key that may take it in, the last that ranks highest.
    pub fn best_stack_decode_candidate(&self, input_idx: usize, key: StackKey, obs: DeepFieldObs, gate: PhysicalAdmissionGate) -> (r: Option<StackDecodeCandidate>)
        ensures
            r == best_candidate_spec(self@, key, input_idx, obs, gate),
    {
        let ghost v = self@;
        let mut best: Option<StackDecodeCandidate> = None;
        let mut i: usize = 0;
        while i < self.stacks.len()
            invariant
                v == self@,
                v == stack_views(self.stacks@),
                i <= self.stacks@.len(),
                best == best_among(v, i as int, key, input_idx, obs, gate),
            decreases self.stacks@.len() - i,
        {
            let stack = &self.stacks[i];
            assert(v[i as int] == stack@);
            if stack.key() == key && stack.can_admit(obs.freq_mhz, obs.dt_ms, obs.nsync, obs.syncavemax_milli, gate) {
                let priority = stack.decode_priority(obs.nsync, obs.syncavemax_milli, obs.focus_mhz);
                let c = StackDecodeCandidate { idx: i, input_idx, priority };
                assert(c == candidate_of(v, i as int, input_idx, obs));
                match best {
                    Some(b) => {
                        if !is_below(&c.priority, &b.priority) {
                            best = Some(c);
                        }
                    },
                    None => {
                        best = Some(c);
                    },
                }
            }
            i = i + 1;
        }
        best
    }

    /// The plan of a slot of `parity` for its observations: each that some
    /// stack may take in gets that stack's decode, the decodes ordered
    /// highest rank first (ties in observation order); each that none
    /// takes in opens a stack when it reaches the floor.
    pub fn plan_slot(&self, parity: usize, obs: &[DeepFieldObs], gate: PhysicalAdmissionGate) -> (plan: SlotPlan)
        ensures
            plan.candidates@.to_multiset() == candidates_upto(self@, parity, obs@, gate, obs@.len() as int).to_multiset(),
            run_order(plan.candidates@),
            plan.opens@ == opens_upto(self@, parity, obs@, gate, obs@.len() as int),
    {
        broadcast use vstd::seq_lib::group_to_multiset_ensures;
        let ghost v = self@;
        let mut candidates: Vec<StackDecodeCandidate> = Vec::new();
        let mut opens: Vec<(StackKey, usize)> = Vec::new();
        let mut k: usize = 0;
        while k < obs.len()
            invariant
                v == self@,
                k <= obs@.len(),
                candidates@.to_multiset() == candidates_upto(v, parity, obs@, gate, k as int).to_multiset(),
                run_order(candidates@),
                forall|q: int| 0 <= q < candidates@.len() ==> (#[trigger] candidates@[q]).input_idx < k,
                opens@ == opens_upto(v, parity, obs@, gate, k as int),
            decreases obs@.len() - k,
        {
            let o = obs[k];
            let key = StackKey { parity, freq_bin: freq_bin_of(o.focus_mhz) };
            assert(key == key_of(parity, o));
            let best = self.best_stack_decode_candidate(k, key, o, gate);
            proof {
                lemma_best_names_input(v, v.len() as int, key, k, o, gate);
                assert(obs@[k as int] == o);
                assert(candidates_upto(v, parity, obs@, gate, k + 1) == match best {
                    Some(c) => candidates_upto(v, parity, obs@, gate, k as int).push(c),
                    None => candidates_upto(v, parity, obs@, gate, k as int),
                });
            }
            match best {
                Some(c) => {
                    let ghost old_c = candidates@;
                    let mut p: usize = 0;
                    while p < candidates.len() && !is_below(&candidates[p].priority, &c.priority)
                        invariant
                            p <= candidates@.len(),
                            candidates@ == old_c,
                            forall|q: int| 0 <= q < p ==> !priority_below((#[trigger] old_c[q]).priority, c.priority),
                        decreases candidates@.len() - p,
                    {
                        p = p + 1;
                    }
                    proof {
                        assert forall|q: int| p <= q < old_c.len() implies priority_below((#[trigger] old_c[q]).priority, c.priority) by {
                            if q > p {
                                assert(runs_before(old_c[p as int], old_c[q]));
                                lemma_below_transitive(old_c[q].priority, old_c[p as int].priority, c.priority);
                            }
                        }
                    }
                    candidates.insert(p, c);
                    proof {
                        let nc = candidates@;
                        assert(nc == old_c.insert(p as int, c));
                        assert forall|x: int, y: int| 0 <= x < y < nc.len() implies runs_before(#[trigger] nc[x], #[trigger] nc[y]) by {
                            if y < p {
                                assert(nc[x] == old_c[x] && nc[y] == old_c[y]);
                            } else if y == p {
                                assert(nc[x] == old_c[x]);
                                lemma_below_total(old_c[x].priority, c.priority);
                            } else if x == p {
                                assert(nc[y] == old_c[y - 1]);
                            } else if x < p {
                                assert(nc[x] == old_c[x] && nc[y] == old_c[y - 1]);
                            } else {
                                assert(nc[x] == old_c[x - 1] && nc[y] == old_c[y - 1]);
                            }
                        }
                        assert forall|q: int| 0 <= q < nc.len() implies (#[trigger] nc[q]).input_idx < k + 1 by {
                            if q < p {
                                assert(nc[q] == old_c[q]);
                            } else if q > p {
                                assert(nc[q] == old_c[q - 1]);
                            }
                        }
                        vstd::seq_lib::to_multiset_insert(old_c, p as int, c);
                        let prev = candidates_upto(v, parity, obs@, gate, k as int);
                        vstd::seq_lib::to_multiset_build(prev, c);
                        assert(nc.to_multiset() == old_c.to_multiset().insert(c));
                        assert(prev.push(c).to_multiset() == prev.to_multiset().insert(c));
                    }
                },
                None => {
                    if o.nsync >= gate.min_nsync && o.syncavemax_milli >= gate.min_syncavemax_milli {
                        opens.push((key, k));
                    }
                },
            }
            k = k + 1;
        }
        SlotPlan { candidates, opens }
    }

    /// Ends a slot: each decode feeds its stack, in order, when the stack
    /// may take the observation in; then each opening observation starts a
    /// stack of its own.
    pub fn commit_slot(&mut self, nutc: u32, gate: PhysicalAdmissionGate, commits: &[StackCommit<T>], opens: &[StackOpen<T>])
        requires
            forall|q: int| 0 <= q < commits@.len() ==> (#[trigger] commits@[q]).idx < old(self)@.len(),
        ensures
            final(self)@ == committed(old(self)@, commits@, nutc, gate) + opens@.map_values(|o: StackOpen<T>| opened_stack(o, nutc)),
    {
        let ghost v0 = self@;
        let mut q: usize = 0;
        while q < commits.len()
            invariant
                q <= commits@.len(),
                self@.len() == v0.len(),
                forall|r: int| 0 <= r < commits@.len() ==> (#[trigger] commits@[r]).idx < v0.len(),
                self@ == committed(v0, commits@.subrange(0, q as int), nutc, gate),
            decreases commits@.len() - q,
        {
            let c = commits[q];
            let ghost before = self@;
            proof {
                assert(commits@.subrange(0, q + 1).drop_last() =~= commits@.subrange(0, q as int));
                assert(commits@.subrange(0, q + 1).last() == c);
            }
            let mut stack = self.stacks.remove(c.idx);
            let ghost sv = stack@;
            proof {
                assert(before[c.idx as int] == sv);
            }
            stack.admit_with_hypotheses(c.obs.freq_mhz, c.obs.dt_ms, c.obs.nsync, c.obs.syncavemax_milli, c.field, nutc, gate, c.hyp);
            self.stacks.insert(c.idx, stack);
            proof {
                assert(self@ =~= committed(v0, commits@.subrange(0, q + 1), nutc, gate));
            }
            q = q + 1;
        }
        proof {
            assert(commits@.subrange(0, commits@.len() as int) =~= commits@);
        }
        let ghost mid = self@;
        let mut r: usize = 0;
        while r < opens.len()
            invariant
                r <= opens@.len(),
                self@ == mid + opens@.subrange(0, r as int).map_values(|o: StackOpen<T>| opened_stack(o, nutc)),
            decreases opens@.len() - r,
        {
            let o = opens[r];
            let s = SlotStack::new(o.key, o.obs.freq_mhz, o.obs.dt_ms, o.field, nutc);
            let ghost before = self@;
            self.stacks.push(s);
            proof {
                assert(self@ =~= before.push(opened_stack(o, nutc)));
                assert(opens@.subrange(0, r + 1).map_values(|o: StackOpen<T>| opened_stack(o, nutc)) =~= opens@.subrange(0, r as int).map_values(|o: StackOpen<T>| opened_stack(o, nutc)).push(opened_stack(o, nutc)));
                assert(self@ =~= mid + opens@.subrange(0, r + 1).map_values(|o: StackOpen<T>| opened_stack(o, nutc)));
            }
            r = r + 1;
        }
        proof {
            assert(opens@.subrange(0, opens@.len() as int) =~= opens@);
        }
    }

    /// Drops the stacks last fed more than 16 slots before `nutc`.
    pub fn age_deep_stacks(&mut self, nutc: u32)
        requires
            forall|i: int| 0 <= i < old(self)@.len() ==> seconds_of(#[trigger] old(self)@[i].last_nutc) <= seconds_of(nutc) + 86400,
        ensures
            final(self)@ == aged(old(self)@, nutc),
    {
        let ghost v = self@;
        let mut src: Vec<SlotStack<T>> = Vec::new();
        std::mem::swap(&mut src, &mut self.stacks);
        let mut kept: Vec<SlotStack<T>> = Vec::new();
        let ghost mut done: Seq<StackView<T>> = Seq::empty();
        while src.len() > 0
            invariant
                done + stack_views(src@) == v,
                forall|q: int| 0 <= q < v.len() ==> seconds_of(#[trigger] v[q].last_nutc) <= seconds_of(nutc) + 86400,
                stack_views(kept@) == aged(done, nutc),
            decreases src@.len(),
        {
            let ghost sv = stack_views(src@);
            let ghost kv = stack_views(kept@);
            let s = src.remove(0);
            proof {
                assert(stack_views(src@) =~= sv.subrange(1, sv.len() as int));
                assert(v[done.len() as int] == s@);
                let nd = done.push(s@);
                assert(nd.drop_last() =~= done);
                assert(nd + stack_views(src@) =~= v);
            }
            let recent = slots_between(s.last_seen_nutc(), nutc) <= 16;
            if recent {
                kept.push(s);
                proof {
                    assert(stack_views(kept@) =~= kv.push(s@));
                }
            }
            proof {
                done = done.push(s@);
            }
        }
        proof {
            assert(done =~= v);
        }
        self.stacks = kept;
    }
}

/// An observation decodes with a stack that may take it in and that no
/// other such stack outranks; it has none exactly when no stack may take
/// it in.
pub proof fn lemma_best_is_highest<T>(stacks: Seq<StackView<T>>, n: int, key: StackKey, k: usize, o: DeepFieldObs, gate: PhysicalAdmissionGate)
    requires
        0 <= n <= stacks.len(),
        stacks.len() <= usize::MAX,
    ensures
        match best_among(stacks, n, key, k, o, gate) {
            Some(c) => {
                &&& 0 <= c.idx < n
                &&& eligible(stacks[c.idx as int], key, o, gate)
                &&& c == candidate_of(stacks, c.idx as int, k, o)
                &&& forall|j: int| 0 <= j < n && eligible(#[trigger] stacks[j], key, o, gate) ==> !priority_below(c.priority, candidate_of(stacks, j, k, o).priority)
            },
            None => forall|j: int| 0 <= j < n ==> !eligible(#[trigger] stacks[j], key, o, gate),
        },
    decreases n,
{
    if n > 0 {
        lemma_best_is_highest(stacks, n - 1, key, k, o, gate);
        let prev = best_among(stacks, n - 1, key, k, o, gate);
        let res = best_among(stacks, n, key, k, o, gate);
        if eligible(stacks[n - 1], key, o, gate) {
            let c = candidate_of(stacks, n - 1, k, o);
            assert(c.idx == n - 1);
            match prev {
                Some(p) => {
                    if priority_below(c.priority, p.priority) {
                        assert(res == prev);
                        assert forall|j: int| 0 <= j < n && eligible(#[trigger] stacks[j], key, o, gate) implies !priority_below(p.priority, candidate_of(stacks, j, k, o).priority) by {
                            if j == n - 1 {
                                lemma_below_asym(c.priority, p.priority);
                            }
                        }
                    } else {
                        assert(res == Some(c));
                        assert forall|j: int| 0 <= j < n && eligible(#[trigger] stacks[j], key, o, gate) implies !priority_below(c.priority, candidate_of(stacks, j, k, o).priority) by {
                            let pj = candidate_of(stacks, j, k, o).priority;
                            if j < n - 1 {
                                assert(!priority_below(p.priority, pj));
                                lemma_below_total(p.priority, pj);
                                if priority_below(c.priority, pj) {
                                    if pj != p.priority {
                                        lemma_below_transitive(c.priority, pj, p.priority);
                                    }
                                    assert(priority_below(c.priority, p.priority));
                                }
                            } else {
                                assert(pj == c.priority);
                            }
                        }
                    }
                },
                None => {
                    assert(res == Some(c));
                },
            }
        } else {
            assert(res == prev);
        }
    }
}

/// Ranking below is never mutual.
pub proof fn lemma_below_asym(a: StackDecodePriority, b: StackDecodePriority)
    requires
        priority_below(a, b),
    ensures
        !priority_below(b, a),
        a != b,
{
}

/// An observation below the floor neither feeds a stack nor opens one.
pub proof fn lemma_below_floor_never_stacked<T>(stacks: Seq<StackView<T>>, parity: usize, obs: Seq<DeepFieldObs>, gate: PhysicalAdmissionGate, n: int, k: int)
    requires
        0 <= k < n <= obs.len(),
        obs.len() <= usize::MAX,
        stacks.len() <= usize::MAX,
        obs[k].nsync < gate.min_nsync || obs[k].syncavemax_milli < gate.min_syncavemax_milli,
    ensures
        forall|q: int| 0 <= q < candidates_upto(stacks, parity, obs, gate, n).len() ==> (#[trigger] candidates_upto(stacks, parity, obs, gate, n)[q]).input_idx != k,
        forall|q: int| 0 <= q < opens_upto(stacks, parity, obs, gate, n).len() ==> (#[trigger] opens_upto(stacks, parity, obs, gate, n)[q]).1 != k,
    decreases n,
{
    let o = obs[n - 1];
    let b = best_candidate_spec(stacks, key_of(parity, o), (n - 1) as usize, o, gate);
    let pc = candidates_upto(stacks, parity, obs, gate, n - 1);
    let po = opens_upto(stacks, parity, obs, gate, n - 1);
    let nc = candidates_upto(stacks, parity, obs, gate, n);
    let no = opens_upto(stacks, parity, obs, gate, n);
    lemma_best_names_input(stacks, stacks.len() as int, key_of(parity, o), (n - 1) as usize, o, gate);
    if n > k + 1 {
        lemma_below_floor_never_stacked(stacks, parity, obs, gate, n - 1, k);
    } else {
        lemma_candidates_name_earlier(stacks, parity, obs, gate, k);
        lemma_opens_name_earlier(stacks, parity, obs, gate, k);
        lemma_best_is_highest(stacks, stacks.len() as int, key_of(parity, o), k as usize, o, gate);
        assert(b is None);
    }
    match b {
        Some(c) => {
            assert(nc == pc.push(c));
            assert forall|q: int| 0 <= q < nc.len() implies (#[trigger] nc[q]).input_idx != k by {
                if q < pc.len() {
                    assert(nc[q] == pc[q]);
                }
            }
        },
        None => {
            assert(nc == pc);
        },
    }
    assert forall|q: int| 0 <= q < no.len() implies (#[trigger] no[q]).1 != k by {
        if no.len() > po.len() {
            assert(no == po.push((key_of(parity, o), (n - 1) as usize)));
            if q < po.len() {
                assert(no[q] == po[q]);
            }
        } else {
            assert(no == po);
        }
    }
}

proof fn lemma_candidates_name_earlier<T>(stacks: Seq<StackView<T>>, parity: usize, obs: Seq<DeepFieldObs>, gate: PhysicalAdmissionGate, n: int)
    requires
        0 <= n <= obs.len(),
        obs.len() <= usize::MAX,
    ensures
        forall|q: int| 0 <= q < candidates_upto(stacks, parity, obs, gate, n).len() ==> (#[trigger] candidates_upto(stacks, parity, obs, gate, n)[q]).input_idx < n,
    decreases n,
{
    if n > 0 {
        lemma_candidates_name_earlier(stacks, parity, obs, gate, n - 1);
        let o = obs[n - 1];
        lemma_best_names_input(stacks, stacks.len() as int, key_of(parity, o), (n - 1) as usize, o, gate);
        let pc = candidates_upto(stacks, parity, obs, gate, n - 1);
        let nc = candidates_upto(stacks, parity, obs, gate, n);
        match best_candidate_spec(stacks, key_of(parity, o), (n - 1) as usize, o, gate) {
            Some(c) => {
                assert(nc == pc.push(c));
                assert forall|q: int| 0 <= q < nc.len() implies (#[trigger] nc[q]).input_idx < n by {
                    if q < pc.len() {
                        assert(nc[q] == pc[q]);
                    }
                }
            },
            None => {
                assert(nc == pc);
            },
        }
    }
}

proof fn lemma_opens_name_earlier<T>(stacks: Seq<StackView<T>>, parity: usize, obs: Seq<DeepFieldObs>, gate: PhysicalAdmissionGate, n: int)
    requires
        0 <= n <= obs.len(),
        obs.len() <= usize::MAX,
    ensures
        forall|q: int| 0 <= q < opens_upto(stacks, parity, obs, gate, n).len() ==> (#[trigger] opens_upto(stacks, parity, obs, gate, n)[q]).1 < n,
    decreases n,
{
    if n > 0 {
        lemma_opens_name_earlier(stacks, parity, obs, gate, n - 1);
        let o = obs[n - 1];
        let po = opens_upto(stacks, parity, obs, gate, n - 1);
        let no = opens_upto(stacks, parity, obs, gate, n);
        assert forall|q: int| 0 <= q < no.len() implies (#[trigger] no[q]).1 < n by {
            if no.len() > po.len() {
                assert(no == po.push((key_of(parity, o), (n - 1) as usize)));
                if q < po.len() {
                    assert(no[q] == po[q]);
                }
            } else {
                assert(no == po);
            }
        }
    }
}

/// Aging keeps exactly the stacks fed within the last 16 slots, in order.
pub proof fn lemma_aged_keeps_recent<T>(stacks: Seq<StackView<T>>, nutc: u32)
    ensures
        forall|q: int| 0 <= q < aged(stacks, nutc).len() ==> slots_between_spec((#[trigger] aged(stacks, nutc)[q]).last_nutc, nutc) <= 16,
        forall|i: int| 0 <= i < stacks.len() && slots_between_spec(stacks[i].last_nutc, nutc) <= 16 ==> aged(stacks, nutc).contains(#[trigger] stacks[i]),
    decreases stacks.len(),
{
    if stacks.len() > 0 {
        let rest = stacks.drop_last();
        lemma_aged_keeps_recent(rest, nutc);
        let a = aged(rest, nutc);
        assert forall|i: int| 0 <= i < stacks.len() && slots_between_spec(stacks[i].last_nutc, nutc) <= 16 implies aged(stacks, nutc).contains(#[trigger] stacks[i]) by {
            if i < stacks.len() - 1 {
                assert(rest[i] == stacks[i]);
                assert(a.contains(rest[i]));
                let w = choose|w: int| 0 <= w < a.len() && a[w] == rest[i];
                if slots_between_spec(stacks.last().last_nutc, nutc) <= 16 {
                    assert(aged(stacks, nutc)[w] == stacks[i]);
                }
            } else {
                assert(aged(stacks, nutc)[a.len() as int] == stacks[i]);
            }
        }
    }
}

} // verus!
