//! The state a JTDX decode session keeps across slots: the QSO memory of
//! the decoder, and the calls that regular decodes (no AP) resolved
//! through hashes, held sorted and each once.
use vstd::prelude::*;
use crate::call_context::{lemma_lex_irreflexive, lemma_lex_total, lemma_lex_transitive, lex_less, lex_less_exec};
use crate::ft8_mod1::{fresh_memory, Ft8Mod1};
use crate::jtdx_calls::{call_shape, hash_call, hash_call_form, hashable_token};
use crate::text::chars_of;

verus! {

/// The calls ascend in character order, each once.
pub open spec fn strictly_ascending(calls: Seq<Seq<char>>) -> bool {
    forall|a: int, b: int| 0 <= a < b < calls.len() ==> lex_less(#[trigger] calls[a], #[trigger] calls[b])
}

pub open spec fn call_views(v: Seq<String>) -> Seq<Seq<char>> {
    v.map_values(|s: String| s@)
}

/// Every call has the shape of a call the book keeps.
pub open spec fn all_call_shaped(calls: Seq<Seq<char>>) -> bool {
    forall|i: int| 0 <= i < calls.len() ==> call_shape(#[trigger] calls[i])
}

/// The calls the book files for the tokens, in order: the kept form of each
/// hashable token; the others file nothing.
pub open spec fn hash_calls_of(tokens: Seq<Seq<char>>) -> Seq<Seq<char>>
    decreases tokens.len(),
{
    if tokens.len() == 0 {
        Seq::empty()
    } else {
        let rest = hash_calls_of(tokens.drop_last());
        if hashable_token(tokens.last()) {
            rest.push(hash_call_form(tokens.last()))
        } else {
            rest
        }
    }
}

/// The calls regular decodes resolved through hashes, sorted, each once.
pub struct RegularHashCalls {
    calls: Vec<String>,
}

impl View for RegularHashCalls {
    type V = Seq<Seq<char>>;

    closed spec fn view(&self) -> Seq<Seq<char>> {
        call_views(self.calls@)
    }
}

/// A JTDX decode session: the decoder's QSO memory and the hash-resolved
/// calls of its regular decodes.
pub struct JtdxStreamDecodeSession {
    pub state: Ft8Mod1,
    pub regular_hash_calls: RegularHashCalls,
}

impl JtdxStreamDecodeSession {
    /// A session with an empty memory and no calls.
    pub fn new() -> (s: Self)
        ensures
            s.state.wf(),
            s.state@ == fresh_memory(),
            s.regular_hash_calls@ == Seq::<Seq<char>>::empty(),
    {
        JtdxStreamDecodeSession { state: Ft8Mod1::new(), regular_hash_calls: RegularHashCalls::new() }
    }

    pub fn is_implemented(&self) -> (r: bool)
        ensures
            r,
    {
        true
    }

    /// The hash-resolved calls of regular decodes, ascending, each once,
    /// each shaped as a call.
    pub fn export_regular_hash_calls(&self) -> (calls: Vec<String>)
        ensures
            call_views(calls@) == self.regular_hash_calls@,
            strictly_ascending(call_views(calls@)),
            all_call_shaped(call_views(calls@)),
    {
        self.regular_hash_calls.export()
    }

    /// Takes in the tokens of a regular decode: each hashable one files its
    /// kept form, a call already held stays once, and the memory is
    /// untouched.
    pub fn record_regular_hash_calls(&mut self, calls: &[String])
        ensures
            final(self).state == old(self).state,
            final(self).regular_hash_calls@.to_set() == old(self).regular_hash_calls@.to_set().union(
                hash_calls_of(call_views(calls@)).to_set(),
            ),
            strictly_ascending(final(self).regular_hash_calls@),
            all_call_shaped(final(self).regular_hash_calls@),
    {
        self.regular_hash_calls.record(calls);
    }
}

impl RegularHashCalls {
    #[verifier::type_invariant]
    spec fn calls_sorted(&self) -> bool {
        &&& strictly_ascending(call_views(self.calls@))
        &&& all_call_shaped(call_views(self.calls@))
    }

    pub fn new() -> (s: Self)
        ensures
            s@ == Seq::<Seq<char>>::empty(),
    {
        let s = RegularHashCalls { calls: Vec::new() };
        assert(s@ =~= Seq::<Seq<char>>::empty());
        s
    }

    /// The held calls, ascending, each once.
    pub fn export(&self) -> (calls: Vec<String>)
        ensures
            call_views(calls@) == self@,
            strictly_ascending(call_views(calls@)),
            all_call_shaped(call_views(calls@)),
    {
        proof {
            use_type_invariant(self);
        }
        let mut out: Vec<String> = Vec::new();
        let mut i: usize = 0;
        while i < self.calls.len()
            invariant
                i <= self.calls@.len(),
                call_views(out@) == call_views(self.calls@).subrange(0, i as int),
            decreases self.calls@.len() - i,
        {
            let c = self.calls[i].clone();
            let ghost before = call_views(out@);
            out.push(c);
            proof {
                assert(call_views(out@) =~= before.push(c@));
                assert(call_views(out@) =~= call_views(self.calls@).subrange(0, i + 1));
            }
            i = i + 1;
        }
        proof {
            assert(call_views(self.calls@).subrange(0, i as int) =~= call_views(self.calls@));
        }
        out
    }

    /// Takes in the tokens of a decode: each hashable one files its kept
    /// form; a call already held stays once.
    pub fn record(&mut self, calls: &[String])
        ensures
            final(self)@.to_set() == old(self)@.to_set().union(hash_calls_of(call_views(calls@)).to_set()),
            strictly_ascending(final(self)@),
            all_call_shaped(final(self)@),
    {
        let mut k: usize = 0;
        while k < calls.len()
            invariant
                k <= calls@.len(),
                self@.to_set() == old(self)@.to_set().union(
                    hash_calls_of(call_views(calls@).subrange(0, k as int)).to_set(),
                ),
            decreases calls@.len() - k,
        {
            let ghost cv = call_views(calls@);
            let ghost before = hash_calls_of(cv.subrange(0, k as int));
            proof {
                assert(cv.subrange(0, k + 1).drop_last() =~= cv.subrange(0, k as int));
                assert(cv.subrange(0, k + 1).last() == calls@[k as int]@);
            }
            match hash_call(calls[k].as_str()) {
                Some(c) => {
                    self.insert_call(&c);
                    proof {
                        before.lemma_push_to_set_commute(c@);
                        assert(self@.to_set() =~= old(self)@.to_set().union(
                            hash_calls_of(cv.subrange(0, k + 1)).to_set(),
                        ));
                    }
                },
                None => {},
            }
            k = k + 1;
        }
        proof {
            assert(call_views(calls@).subrange(0, k as int) =~= call_views(calls@));
            use_type_invariant(&*self);
        }
    }

    fn insert_call(&mut self, call: &String)
        requires
            call_shape(call@),
        ensures
            final(self)@.to_set() == old(self)@.to_set().insert(call@),
    {
        proof {
            use_type_invariant(&*self);
        }
        let key = chars_of(call.as_str());
        let ghost v = call_views(self.calls@);
        let mut p: usize = 0;
        while p < self.calls.len() && lex_less_exec(&chars_of(self.calls[p].as_str()), &key)
            invariant
                p <= self.calls@.len(),
                v == call_views(self.calls@),
                key@ == call@,
                forall|q: int| 0 <= q < p ==> lex_less(#[trigger] v[q], call@),
            decreases self.calls@.len() - p,
        {
            p = p + 1;
        }
        if p < self.calls.len() && self.calls[p] == *call {
            proof {
                assert(v[p as int] == call@);
                assert(v.to_set().contains(call@));
                assert(v.to_set().insert(call@) =~= v.to_set());
            }
            return;
        }
        proof {
            assert forall|q: int| p <= q < v.len() implies lex_less(call@, #[trigger] v[q]) by {
                assert(!lex_less(v[p as int], call@));
                assert(v[p as int] != call@);
                lemma_lex_total(v[p as int], call@);
                if q > p {
                    lemma_lex_transitive(call@, v[p as int], v[q]);
                }
            }
        }
        let mut calls: Vec<String> = Vec::new();
        std::mem::swap(&mut calls, &mut self.calls);
        calls.insert(p, call.clone());
        proof {
            let nv = call_views(calls@);
            assert(nv =~= v.insert(p as int, call@));
            assert forall|a: int, b: int| 0 <= a < b < nv.len() implies lex_less(#[trigger] nv[a], #[trigger] nv[b]) by {
                if b < p {
                    assert(nv[a] == v[a] && nv[b] == v[b]);
                } else if b == p {
                    assert(nv[a] == v[a]);
                } else if a == p {
                    assert(nv[b] == v[b - 1]);
                } else if a < p {
                    assert(nv[a] == v[a] && nv[b] == v[b - 1]);
                    lemma_lex_transitive(v[a], call@, v[b - 1]);
                } else {
                    assert(nv[a] == v[a - 1] && nv[b] == v[b - 1]);
                }
            }
            assert(nv.to_set() =~= v.to_set().insert(call@)) by {
                assert forall|x: Seq<char>| nv.to_set().contains(x) <==> v.to_set().insert(call@).contains(x) by {
                    if nv.to_set().contains(x) {
                        let w = choose|w: int| 0 <= w < nv.len() && nv[w] == x;
                        if w < p {
                            assert(v[w] == x);
                        } else if w > p {
                            assert(v[w - 1] == x);
                        }
                    }
                    if v.to_set().contains(x) {
                        let w = choose|w: int| 0 <= w < v.len() && v[w] == x;
                        if w < p {
                            assert(nv[w] == x);
                        } else {
                            assert(nv[w + 1] == x);
                        }
                    }
                    if x == call@ {
                        assert(nv[p as int] == x);
                    }
                }
            }
        }
        self.calls = calls;
    }
}

/// The exported calls are the recorded ones, ascending and each once:
/// recording a call twice exports it once, whatever the order of the slots.
pub proof fn lemma_export_is_sorted_set(a: Seq<Seq<char>>, b: Seq<Seq<char>>)
    requires
        strictly_ascending(a),
        strictly_ascending(b),
        a.to_set() == b.to_set(),
    ensures
        a == b,
    decreases a.len() + b.len(),
{
    if a.len() > 0 && b.len() > 0 {
        assert(a.to_set().contains(a[0]));
        assert(b.to_set().contains(b[0]));
        let i = choose|i: int| 0 <= i < b.len() && b[i] == a[0];
        let j = choose|j: int| 0 <= j < a.len() && a[j] == b[0];
        if i > 0 {
            assert(lex_less(b[0], b[i]));
            if j > 0 {
                assert(lex_less(a[0], a[j]));
                lemma_lex_transitive(a[0], b[0], a[0]);
                lemma_lex_irreflexive(a[0]);
            } else {
                lemma_lex_irreflexive(b[0]);
            }
        }
        assert(a[0] == b[0]);
        let a1 = a.drop_first();
        let b1 = b.drop_first();
        assert forall|x: Seq<char>| a1.to_set().contains(x) <==> b1.to_set().contains(x) by {
            if a1.to_set().contains(x) {
                let w = choose|w: int| 0 <= w < a1.len() && a1[w] == x;
                assert(a[w + 1] == x);
                assert(lex_less(a[0], x));
                assert(b.to_set().contains(x));
                let u = choose|u: int| 0 <= u < b.len() && b[u] == x;
                if u == 0 {
                    lemma_lex_irreflexive(x);
                }
                assert(b1[u - 1] == x);
            }
            if b1.to_set().contains(x) {
                let w = choose|w: int| 0 <= w < b1.len() && b1[w] == x;
                assert(b[w + 1] == x);
                assert(lex_less(b[0], x));
                assert(a.to_set().contains(x));
                let u = choose|u: int| 0 <= u < a.len() && a[u] == x;
                if u == 0 {
                    lemma_lex_irreflexive(x);
                }
                assert(a1[u - 1] == x);
            }
        }
        assert(a1.to_set() =~= b1.to_set());
        lemma_export_is_sorted_set(a1, b1);
        assert(a =~= seq![a[0]] + a1);
        assert(b =~= seq![b[0]] + b1);
    } else if a.len() > 0 {
        assert(a.to_set().contains(a[0]));
    } else if b.len() > 0 {
        assert(b.to_set().contains(b[0]));
    }
}

} // verus!
