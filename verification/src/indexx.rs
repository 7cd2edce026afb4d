//! An index sort: the order in which to read an array so that its values
//! ascend. Values are integer keys. The sort is a quicksort: segments of at
//! most seven entries are sorted by insertion, longer ones are split around
//! the median of their first, middle and last keys; the order it gives
//! among equal keys is left open.
use vstd::prelude::*;

verus! {

/// The keys read along `order` never decrease.
pub open spec fn ascending_order(keys: Seq<i64>, order: Seq<usize>) -> bool {
    forall|a: int, b: int| 0 <= a < b < order.len() ==> keys[#[trigger] order[a] as int] <= keys[#[trigger] order[b] as int]
}

/// `order` lists each index of `n` values once.
pub open spec fn is_index_permutation(order: Seq<usize>, n: int) -> bool {
    &&& order.len() == n
    &&& forall|a: int| 0 <= a < order.len() ==> #[trigger] order[a] < n
    &&& forall|i: usize| i < n ==> #[trigger] order.contains(i)
    &&& forall|a: int, b: int| 0 <= a < b < order.len() ==> #[trigger] order[a] != #[trigger] order[b]
}

/// The key read at position `p` of `ix`.
spec fn kv(keys: Seq<i64>, ix: Seq<usize>, p: int) -> int {
    keys[ix[p] as int] as int
}

/// `ix` holds distinct indices below `n`, one per position.
spec fn perm_ok(ix: Seq<usize>, n: int) -> bool {
    &&& ix.len() == n
    &&& forall|a: int| 0 <= a < n ==> #[trigger] ix[a] < n
    &&& forall|a: int, b: int| 0 <= a < b < n ==> #[trigger] ix[a] != #[trigger] ix[b]
    &&& forall|v: usize| v < n ==> #[trigger] ix.contains(v)
}

/// Two positions lie in one segment of the stack.
spec fn same_stack(stack: Seq<(usize, usize)>, p: int, q: int) -> bool {
    exists|t: int| 0 <= t < stack.len() && (#[trigger] stack[t]).0 <= p <= stack[t].1 && stack[t].0 <= q <= stack[t].1
}

/// The segments still to sort: the current one `[l, ir]` and those on the
/// stack, none empty, none overlapping.
spec fn segs_ok(stack: Seq<(usize, usize)>, l: int, ir: int, n: int) -> bool {
    &&& 0 <= l <= ir < n
    &&& forall|t: int| 0 <= t < stack.len() ==> (#[trigger] stack[t]).0 <= stack[t].1 < n && (stack[t].1 < l
        || ir < stack[t].0)
    &&& forall|t: int, u: int| 0 <= t < u < stack.len() ==> (#[trigger] stack[t]).1 < (#[trigger] stack[u]).0
        || stack[u].1 < stack[t].0
}

/// Outside the segments still to sort, the keys ascend: two positions
/// outside the current segment and not in one stacked segment are in
/// order, and every key below the current segment is at most, every key
/// above it at least, each key inside it.
spec fn placed(keys: Seq<i64>, ix: Seq<usize>, stack: Seq<(usize, usize)>, l: int, ir: int) -> bool {
    &&& forall|p: int, q: int|
        0 <= p < q < ix.len() && !(l <= p <= ir) && !(l <= q <= ir) && !same_stack(stack, p, q) ==> kv(keys, ix, p)
            <= kv(keys, ix, q)
    &&& forall|p: int, q: int| 0 <= p < l <= q <= ir ==> #[trigger] kv(keys, ix, p) <= #[trigger] kv(keys, ix, q)
    &&& forall|p: int, q: int| l <= q <= ir < p < ix.len() ==> #[trigger] kv(keys, ix, q) <= #[trigger] kv(keys, ix, p)
}

/// The size of the stacked segments.
spec fn stacked(stack: Seq<(usize, usize)>) -> int
    decreases stack.len(),
{
    if stack.len() == 0 {
        0
    } else {
        stacked(stack.drop_last()) + stack.last().1 + 1 - stack.last().0
    }
}

proof fn lemma_stacked_nonneg(stack: Seq<(usize, usize)>)
    requires
        forall|t: int| 0 <= t < stack.len() ==> (#[trigger] stack[t]).0 <= stack[t].1,
    ensures
        stacked(stack) >= 0,
    decreases stack.len(),
{
    if stack.len() > 0 {
        lemma_stacked_nonneg(stack.drop_last());
    }
}

/// Positions `a` and `b` of the current segment change places: the
/// indices stay distinct, nothing outside the segment moves, and the keys
/// outside keep their order to every key inside.
proof fn lemma_swap_keeps(
    keys: Seq<i64>,
    ix: Seq<usize>,
    nx: Seq<usize>,
    stack: Seq<(usize, usize)>,
    l: int,
    ir: int,
    a: int,
    b: int,
)
    requires
        perm_ok(ix, keys.len() as int),
        placed(keys, ix, stack, l, ir),
        0 <= l <= a <= ir < ix.len(),
        l <= b <= ir,
        nx == ix.update(a, ix[b]).update(b, ix[a]),
    ensures
        perm_ok(nx, keys.len() as int),
        placed(keys, nx, stack, l, ir),
{
    let n = keys.len() as int;
    assert forall|p: int, q: int| 0 <= p < q < n implies #[trigger] nx[p] != #[trigger] nx[q] by {
        let fp = if p == a {
            b
        } else if p == b {
            a
        } else {
            p
        };
        let fq = if q == a {
            b
        } else if q == b {
            a
        } else {
            q
        };
        assert(nx[p] == ix[fp] && nx[q] == ix[fq]);
        if fp < fq {
            assert(ix[fp] != ix[fq]);
        } else {
            assert(ix[fq] != ix[fp]);
        }
    }
    assert forall|v: usize| v < n implies #[trigger] nx.contains(v) by {
        assert(ix.contains(v));
        let w = choose|w: int| 0 <= w < ix.len() && ix[w] == v;
        let pw = if w == a {
            b
        } else if w == b {
            a
        } else {
            w
        };
        assert(nx[pw] == v);
    }
    assert forall|p: int, q: int| 0 <= p < l <= q <= ir implies #[trigger] kv(keys, nx, p) <= #[trigger] kv(keys, nx, q) by {
        let fq = if q == a {
            b
        } else if q == b {
            a
        } else {
            q
        };
        assert(kv(keys, nx, q) == kv(keys, ix, fq));
        assert(kv(keys, nx, p) == kv(keys, ix, p));
    }
    assert forall|p: int, q: int| l <= q <= ir < p < nx.len() implies #[trigger] kv(keys, nx, q) <= #[trigger] kv(keys, nx, p) by {
        let fq = if q == a {
            b
        } else if q == b {
            a
        } else {
            q
        };
        assert(kv(keys, nx, q) == kv(keys, ix, fq));
        assert(kv(keys, nx, p) == kv(keys, ix, p));
    }
    assert forall|p: int, q: int|
        0 <= p < q < nx.len() && !(l <= p <= ir) && !(l <= q <= ir) && !same_stack(stack, p, q) implies kv(keys, nx, p)
        <= kv(keys, nx, q) by {
        assert(kv(keys, nx, q) == kv(keys, ix, q));
        assert(kv(keys, nx, p) == kv(keys, ix, p));
    }
}

/// The keys at positions `lo` to `hi` ascend.
spec fn sorted_in(keys: Seq<i64>, ix: Seq<usize>, lo: int, hi: int) -> bool {
    forall|p: int, q: int| lo <= p < q <= hi ==> #[trigger] kv(keys, ix, p) <= #[trigger] kv(keys, ix, q)
}

/// One step of the insertion sort: the entry at `j` moves down past the
/// larger keys before it, so that positions `l` to `j` ascend.
fn insert_step(keys: &[i64], ix: &mut Vec<usize>, Ghost(stack): Ghost<Seq<(usize, usize)>>, l: usize, ir: usize, j: usize)
    requires
        perm_ok(old(ix)@, keys@.len() as int),
        placed(keys@, old(ix)@, stack, l as int, ir as int),
        l < j <= ir < keys@.len(),
        sorted_in(keys@, old(ix)@, l as int, j - 1),
    ensures
        perm_ok(final(ix)@, keys@.len() as int),
        placed(keys@, final(ix)@, stack, l as int, ir as int),
        sorted_in(keys@, final(ix)@, l as int, j as int),
{
    let ghost o = ix@;
    let ghost n = keys@.len() as int;
    let indxt = ix[j];
    let a = keys[indxt];
    let mut h: usize = j;
    proof {
        if l > 0 {
            assert(kv(keys@, o, l - 1) <= kv(keys@, o, j as int));
        }
    }
    while h > 0 && keys[ix[h - 1]] > a
        invariant
            l <= h <= j,
            j <= ir < n,
            n == keys@.len(),
            ix@.len() == n,
            a == keys@[o[j as int] as int],
            indxt == o[j as int],
            perm_ok(o, n),
            l > 0 ==> kv(keys@, o, l - 1) <= a,
            forall|p: int| 0 <= p < h ==> #[trigger] ix@[p] == o[p],
            forall|p: int| h < p <= j ==> #[trigger] ix@[p] == o[p - 1],
            forall|p: int| j < p < n ==> #[trigger] ix@[p] == o[p],
            forall|p: int| h <= p < j ==> #[trigger] kv(keys@, o, p) > a,
        decreases h,
    {
        assert(ix@[h - 1] == o[h - 1]);
        ix.set(h, ix[h - 1]);
        h = h - 1;
    }
    ix.set(h, indxt);
    proof {
        let nx = ix@;
        assert(h > 0 ==> kv(keys@, o, h - 1) <= a) by {
            if h > 0 {
                assert(nx[h - 1] == o[h - 1]);
            }
        }
        // where each new position's index came from
        assert forall|p: int| 0 <= p < n implies #[trigger] nx[p] == o[
            if p < h { p } else if p == h { j as int } else if p <= j { p - 1 } else { p }
        ] by {}
        assert forall|p: int, q: int| 0 <= p < q < n implies #[trigger] nx[p] != #[trigger] nx[q] by {
            let fp = if p < h { p } else if p == h { j as int } else if p <= j { p - 1 } else { p };
            let fq = if q < h { q } else if q == h { j as int } else if q <= j { q - 1 } else { q };
            assert(nx[p] == o[fp] && nx[q] == o[fq]);
            assert(fp != fq);
            if fp < fq {
                assert(o[fp] != o[fq]);
            } else {
                assert(o[fq] != o[fp]);
            }
        }
        assert forall|v: usize| v < n implies #[trigger] nx.contains(v) by {
            assert(o.contains(v));
            let w = choose|w: int| 0 <= w < o.len() && o[w] == v;
            let pw = if w < h { w } else if w == j { h as int } else if w < j { w + 1 } else { w };
            assert(nx[pw] == o[w]);
        }
        assert forall|p: int, q: int| l <= p < q <= j implies #[trigger] kv(keys@, nx, p) <= #[trigger] kv(keys@, nx, q) by {
            let fp = if p < h { p } else if p == h { j as int } else { p - 1 };
            let fq = if q < h { q } else if q == h { j as int } else { q - 1 };
            assert(nx[p] == o[fp] && nx[q] == o[fq]);
            if q < h {
                assert(kv(keys@, o, p) <= kv(keys@, o, q));
            } else if q == h {
                assert(kv(keys@, o, p) <= kv(keys@, o, h - 1));
            } else if p == h {
                assert(kv(keys@, o, q - 1) > a);
            } else if p < h {
                assert(kv(keys@, o, p) <= kv(keys@, o, h - 1) || p == h - 1);
                assert(kv(keys@, o, q - 1) > a);
            } else {
                assert(kv(keys@, o, p - 1) <= kv(keys@, o, q - 1));
            }
        }
        assert forall|p: int, q: int| 0 <= p < l <= q <= ir implies #[trigger] kv(keys@, nx, p) <= #[trigger] kv(keys@, nx, q) by {
            let fq = if q < h { q } else if q == h { j as int } else if q <= j { q - 1 } else { q };
            assert(nx[q] == o[fq]);
            assert(nx[p] == o[p]);
            assert(kv(keys@, o, p) <= kv(keys@, o, fq));
        }
        assert forall|p: int, q: int| l <= q <= ir < p < nx.len() implies #[trigger] kv(keys@, nx, q) <= #[trigger] kv(keys@, nx, p) by {
            let fq = if q < h { q } else if q == h { j as int } else if q <= j { q - 1 } else { q };
            assert(nx[q] == o[fq]);
            assert(nx[p] == o[p]);
            assert(kv(keys@, o, fq) <= kv(keys@, o, p));
        }
        assert forall|p: int, q: int|
            0 <= p < q < nx.len() && !(l <= p <= ir) && !(l <= q <= ir) && !same_stack(stack, p, q) implies kv(keys@, nx, p)
            <= kv(keys@, nx, q) by {
            assert(nx[p] == o[p] && nx[q] == o[q]);
        }
    }
}

/// Splits the segment `[l, ir]` of at least eight entries around the median
/// of its first, middle and last keys: returns `(i, j)` with the pivot at
/// `j`, keys at most the pivot's up to `i - 1`, at least it from `j` on.
fn partition(keys: &[i64], ix: &mut Vec<usize>, Ghost(stack): Ghost<Seq<(usize, usize)>>, l: usize, ir: usize) -> (r: (
    usize,
    usize,
))
    requires
        perm_ok(old(ix)@, keys@.len() as int),
        placed(keys@, old(ix)@, stack, l as int, ir as int),
        l + 7 <= ir < keys@.len(),
    ensures
        perm_ok(final(ix)@, keys@.len() as int),
        placed(keys@, final(ix)@, stack, l as int, ir as int),
        l + 1 <= r.1 < r.0 <= ir,
        forall|p: int| l <= p < r.0 ==> #[trigger] kv(keys@, final(ix)@, p) <= kv(keys@, final(ix)@, r.1 as int),
        forall|p: int| r.1 <= p <= ir ==> #[trigger] kv(keys@, final(ix)@, p) >= kv(keys@, final(ix)@, r.1 as int),
{
    let ghost n = keys@.len() as int;
    let k = l + (ir - l) / 2;
    proof { lemma_swap_keeps(keys@, ix@, ix@.update(k as int, ix@[l + 1]).update(l + 1, ix@[k as int]), stack, l as int, ir as int, k as int, l + 1); }
    swap_at(ix, k, l + 1);
    if keys[ix[l + 1]] > keys[ix[ir]] {
        proof { lemma_swap_keeps(keys@, ix@, ix@.update(l + 1, ix@[ir as int]).update(ir as int, ix@[l + 1]), stack, l as int, ir as int, l + 1, ir as int); }
        swap_at(ix, l + 1, ir);
    }
    if keys[ix[l]] > keys[ix[ir]] {
        proof { lemma_swap_keeps(keys@, ix@, ix@.update(l as int, ix@[ir as int]).update(ir as int, ix@[l as int]), stack, l as int, ir as int, l as int, ir as int); }
        swap_at(ix, l, ir);
    }
    if keys[ix[l + 1]] > keys[ix[l]] {
        proof { lemma_swap_keeps(keys@, ix@, ix@.update(l + 1, ix@[l as int]).update(l as int, ix@[l + 1]), stack, l as int, ir as int, l + 1, l as int); }
        swap_at(ix, l + 1, l);
    }
    let indxt = ix[l];
    let a = keys[indxt];
    assert(kv(keys@, ix@, l + 1) <= a);
    assert(kv(keys@, ix@, ir as int) >= a);
    let mut i: usize = l + 2;
    while keys[ix[i]] < a
        invariant
            l + 2 <= i <= ir < n,
            n == keys@.len(),
            perm_ok(ix@, n),
            kv(keys@, ix@, ir as int) >= a,
            forall|p: int| l + 1 <= p < i ==> #[trigger] kv(keys@, ix@, p) <= a,
        decreases ir - i,
    {
        i = i + 1;
    }
    let mut j: usize = ir - 1;
    while keys[ix[j]] > a
        invariant
            l + 1 <= j < ir < n,
            l + 2 <= i,
            n == keys@.len(),
            perm_ok(ix@, n),
            kv(keys@, ix@, l + 1) <= a,
            forall|p: int| l + 1 <= p < i ==> #[trigger] kv(keys@, ix@, p) <= a,
            forall|p: int| j < p <= ir ==> #[trigger] kv(keys@, ix@, p) >= a,
        decreases j,
    {
        j = j - 1;
    }
    while i <= j
        invariant
            l + 2 <= i <= ir < n,
            l + 1 <= j < ir,
            n == keys@.len(),
            perm_ok(ix@, n),
            placed(keys@, ix@, stack, l as int, ir as int),
            ix@[l as int] == indxt,
            a == keys@[indxt as int],
            kv(keys@, ix@, i as int) >= a,
            kv(keys@, ix@, j as int) <= a,
            forall|p: int| l + 1 <= p < i ==> #[trigger] kv(keys@, ix@, p) <= a,
            forall|p: int| j < p <= ir ==> #[trigger] kv(keys@, ix@, p) >= a,
        decreases ir + 1 + j - i,
    {
        proof { lemma_swap_keeps(keys@, ix@, ix@.update(i as int, ix@[j as int]).update(j as int, ix@[i as int]), stack, l as int, ir as int, i as int, j as int); }
        let ghost before = ix@;
        swap_at(ix, i, j);
        let ghost stop: int = if j > i { j as int } else { j + 1 };
        let ghost j0 = j;
        let ghost i0 = i;
        proof {
            assert forall|p: int| l + 1 <= p <= i implies #[trigger] kv(keys@, ix@, p) <= a by {
                if p != i && p != j {
                    assert(kv(keys@, ix@, p) == kv(keys@, before, p));
                }
            }
            assert forall|p: int| j <= p <= ir implies #[trigger] kv(keys@, ix@, p) >= a by {
                if p != i && p != j {
                    assert(kv(keys@, ix@, p) == kv(keys@, before, p));
                }
            }
            assert(kv(keys@, ix@, stop) >= a);
        }
        i = i + 1;
        while keys[ix[i]] < a
            invariant
                l + 2 <= i <= stop <= ir < n,
                i0 < i,
                n == keys@.len(),
                perm_ok(ix@, n),
                forall|p: int| j0 <= p <= ir ==> #[trigger] kv(keys@, ix@, p) >= a,
                kv(keys@, ix@, stop) >= a,
                forall|p: int| l + 1 <= p < i ==> #[trigger] kv(keys@, ix@, p) <= a,
            decreases stop - i,
        {
            i = i + 1;
        }
        j = j - 1;
        while keys[ix[j]] > a
            invariant
                l + 1 <= j < j0 < ir < n,
                l + 2 <= i,
                n == keys@.len(),
                perm_ok(ix@, n),
                kv(keys@, ix@, l + 1) <= a,
                forall|p: int| l + 1 <= p < i ==> #[trigger] kv(keys@, ix@, p) <= a,
                forall|p: int| j < p <= ir ==> #[trigger] kv(keys@, ix@, p) >= a,
            decreases j,
        {
            j = j - 1;
        }
    }
    proof { lemma_swap_keeps(keys@, ix@, ix@.update(l as int, ix@[j as int]).update(j as int, ix@[l as int]), stack, l as int, ir as int, l as int, j as int); }
    let ghost before = ix@;
    swap_at(ix, l, j);
    proof {
        assert(kv(keys@, ix@, j as int) == a);
        assert forall|p: int| l <= p < i implies #[trigger] kv(keys@, ix@, p) <= kv(keys@, ix@, j as int) by {
            if p == l {
                assert(kv(keys@, ix@, p) == kv(keys@, before, j as int));
            } else if p != j {
                assert(kv(keys@, ix@, p) == kv(keys@, before, p));
            }
        }
        assert forall|p: int| j <= p <= ir implies #[trigger] kv(keys@, ix@, p) >= kv(keys@, ix@, j as int) by {
            if p != j {
                assert(kv(keys@, ix@, p) == kv(keys@, before, p));
            }
        }
    }
    (i, j)
}

/// The indices of `keys` in ascending order of their keys.
pub fn indexx_ascending(keys: &[i64]) -> (order: Vec<usize>)
    ensures
        is_index_permutation(order@, keys@.len() as int),
        ascending_order(keys@, order@),
{
    let n = keys.len();
    let mut indx: Vec<usize> = Vec::new();
    let mut t: usize = 0;
    while t < n
        invariant
            t <= n,
            indx@.len() == t,
            forall|p: int| 0 <= p < t ==> #[trigger] indx@[p] == p,
        decreases n - t,
    {
        indx.push(t);
        t = t + 1;
    }
    proof {
        assert forall|v: usize| v < n implies #[trigger] indx@.contains(v) by {
            assert(indx@[v as int] == v);
        }
    }
    if n == 0 {
        return indx;
    }
    let mut stack: Vec<(usize, usize)> = Vec::new();
    let mut l: usize = 0;
    let mut ir: usize = n - 1;
    proof {
        lemma_stacked_nonneg(stack@);
    }
    loop
        invariant
            n == keys@.len(),
            perm_ok(indx@, n as int),
            segs_ok(stack@, l as int, ir as int, n as int),
            placed(keys@, indx@, stack@, l as int, ir as int),
        decreases stacked(stack@) + ir + 1 - l,
    {
        proof {
            lemma_stacked_nonneg(stack@);
        }
        if ir - l < 7 {
            if l < ir {
                let mut j: usize = l + 1;
                while j <= ir
                    invariant
                        n == keys@.len(),
                        l < j <= ir + 1,
                        ir < n,
                        perm_ok(indx@, n as int),
                        placed(keys@, indx@, stack@, l as int, ir as int),
                        sorted_in(keys@, indx@, l as int, j - 1),
                    decreases ir + 1 - j,
                {
                    insert_step(keys, &mut indx, Ghost(stack@), l, ir, j);
                    j = j + 1;
                }
            }
            assert(sorted_in(keys@, indx@, l as int, ir as int));
            if stack.len() == 0 {
                proof {
                    lemma_done(keys@, indx@, stack@, l as int, ir as int);
                }
                return indx;
            }
            let ghost old_stack = stack@;
            let top = stack[stack.len() - 1];
            stack.pop();
            proof {
                assert(stack@ =~= old_stack.drop_last());
                lemma_pop_keeps(keys@, indx@, old_stack, l as int, ir as int);
            }
            l = top.0;
            ir = top.1;
        } else {
            let ghost old_stack = stack@;
            let (i, j) = partition(keys, &mut indx, Ghost(stack@), l, ir);
            if ir - i + 1 >= j - l {
                stack.push((i, ir));
                proof {
                    assert(stack@.drop_last() =~= old_stack);
                    lemma_split_keeps(keys@, indx@, old_stack, l as int, ir as int, i as int, j as int, true);
                }
                ir = j - 1;
            } else {
                stack.push((l, j - 1));
                proof {
                    assert(stack@.drop_last() =~= old_stack);
                    lemma_split_keeps(keys@, indx@, old_stack, l as int, ir as int, i as int, j as int, false);
                }
                l = i;
            }
        }
    }
}

/// The last segment sorted: every pair of positions is in order.
proof fn lemma_done(keys: Seq<i64>, ix: Seq<usize>, stack: Seq<(usize, usize)>, l: int, ir: int)
    requires
        perm_ok(ix, keys.len() as int),
        stack.len() == 0,
        0 <= l <= ir < ix.len(),
        placed(keys, ix, stack, l, ir),
        sorted_in(keys, ix, l, ir),
    ensures
        is_index_permutation(ix, keys.len() as int),
        ascending_order(keys, ix),
{
    assert forall|a: int, b: int| 0 <= a < b < ix.len() implies keys[#[trigger] ix[a] as int] <= keys[#[trigger] ix[b] as int] by {
        assert(!same_stack(stack, a, b));
        assert(kv(keys, ix, a) <= kv(keys, ix, b));
    }
}

/// The top segment of the stack becomes the current one.
proof fn lemma_pop_keeps(keys: Seq<i64>, ix: Seq<usize>, stack: Seq<(usize, usize)>, l: int, ir: int)
    requires
        stack.len() > 0,
        segs_ok(stack, l, ir, ix.len() as int),
        placed(keys, ix, stack, l, ir),
        sorted_in(keys, ix, l, ir),
    ensures
        segs_ok(stack.drop_last(), stack.last().0 as int, stack.last().1 as int, ix.len() as int),
        placed(keys, ix, stack.drop_last(), stack.last().0 as int, stack.last().1 as int),
        stacked(stack) == stacked(stack.drop_last()) + stack.last().1 + 1 - stack.last().0,
{
    let s = stack.last();
    let rest = stack.drop_last();
    let m = stack.len() - 1;
    assert(stack[m] == s);
    let nl = s.0 as int;
    let nr = s.1 as int;
    assert forall|t: int| 0 <= t < rest.len() implies (#[trigger] rest[t]).0 <= rest[t].1 < ix.len() && (rest[t].1 < nl
        || nr < rest[t].0) by {
        assert(rest[t] == stack[t]);
    }
    assert forall|t: int, u: int| 0 <= t < u < rest.len() implies (#[trigger] rest[t]).1 < (#[trigger] rest[u]).0
        || rest[u].1 < rest[t].0 by {
        assert(rest[t] == stack[t] && rest[u] == stack[u]);
    }
    // a position of the popped segment shares no stacked segment with one outside it
    assert forall|p: int, q: int| nl <= q <= nr && !(nl <= p <= nr) implies !#[trigger] same_stack(stack, p, q)
        && !same_stack(stack, q, p) by {
        if same_stack(stack, p, q) {
            let t = choose|t: int| 0 <= t < stack.len() && (#[trigger] stack[t]).0 <= p <= stack[t].1 && stack[t].0 <= q <= stack[t].1;
            assert(t != m);
        }
        if same_stack(stack, q, p) {
            let t = choose|t: int| 0 <= t < stack.len() && (#[trigger] stack[t]).0 <= q <= stack[t].1 && stack[t].0 <= p <= stack[t].1;
            assert(t != m);
        }
    }
    assert forall|p: int, q: int| 0 <= p < nl <= q <= nr implies #[trigger] kv(keys, ix, p) <= #[trigger] kv(keys, ix, q) by {
        if l <= p <= ir {
            assert(ir < nl);
        } else {
            assert(!same_stack(stack, p, q));
        }
    }
    assert forall|p: int, q: int| nl <= q <= nr < p < ix.len() implies #[trigger] kv(keys, ix, q) <= #[trigger] kv(keys, ix, p) by {
        if l <= p <= ir {
            assert(nr < l);
        } else {
            assert(!same_stack(stack, q, p));
        }
    }
    assert forall|p: int, q: int|
        0 <= p < q < ix.len() && !(nl <= p <= nr) && !(nl <= q <= nr) && !same_stack(rest, p, q) implies kv(keys, ix, p)
        <= kv(keys, ix, q) by {
        if same_stack(stack, p, q) {
            let t = choose|t: int| 0 <= t < stack.len() && (#[trigger] stack[t]).0 <= p <= stack[t].1 && stack[t].0 <= q <= stack[t].1;
            assert(t != m);
            assert(rest[t] == stack[t]);
            assert(same_stack(rest, p, q));
        }
    }
}

/// After a split of `[l, ir]` at `(i, j)`, one side is stacked and the
/// other becomes the current segment (`high`: the upper side is stacked).
proof fn lemma_split_keeps(
    keys: Seq<i64>,
    ix: Seq<usize>,
    stack: Seq<(usize, usize)>,
    l: int,
    ir: int,
    i: int,
    j: int,
    high: bool,
)
    requires
        segs_ok(stack, l, ir, ix.len() as int),
        placed(keys, ix, stack, l, ir),
        l + 1 <= j < i <= ir <= usize::MAX,
        forall|p: int| l <= p < i ==> #[trigger] kv(keys, ix, p) <= kv(keys, ix, j),
        forall|p: int| j <= p <= ir ==> #[trigger] kv(keys, ix, p) >= kv(keys, ix, j),
    ensures
        high ==> segs_ok(stack.push((i as usize, ir as usize)), l, j - 1, ix.len() as int),
        high ==> placed(keys, ix, stack.push((i as usize, ir as usize)), l, j - 1),
        !high ==> segs_ok(stack.push((l as usize, (j - 1) as usize)), i, ir, ix.len() as int),
        !high ==> placed(keys, ix, stack.push((l as usize, (j - 1) as usize)), i, ir),
{
    let a = kv(keys, ix, j);
    let (lo, hi, cl, cr) = if high {
        (i, ir, l, j - 1)
    } else {
        (l, j - 1, i, ir)
    };
    let ns = stack.push((lo as usize, hi as usize));
    let m = stack.len() as int;
    assert(ns[m] == (lo as usize, hi as usize));
    assert forall|t: int| 0 <= t < ns.len() implies (#[trigger] ns[t]).0 <= ns[t].1 < ix.len() && (ns[t].1 < cl
        || cr < ns[t].0) by {
        if t < m {
            assert(ns[t] == stack[t]);
        }
    }
    assert forall|t: int, u: int| 0 <= t < u < ns.len() implies (#[trigger] ns[t]).1 < (#[trigger] ns[u]).0
        || ns[u].1 < ns[t].0 by {
        assert(ns[t] == stack[t]);
        if u < m {
            assert(ns[u] == stack[u]);
        }
    }
    assert forall|p: int, q: int| 0 <= p < cl <= q <= cr implies #[trigger] kv(keys, ix, p) <= #[trigger] kv(keys, ix, q) by {
        if p >= l {
            assert(kv(keys, ix, p) <= a);
        }
    }
    assert forall|p: int, q: int| cl <= q <= cr < p < ix.len() implies #[trigger] kv(keys, ix, q) <= #[trigger] kv(keys, ix, p) by {
        if p <= ir {
            assert(kv(keys, ix, q) <= a);
        }
    }
    assert forall|p: int, q: int|
        0 <= p < q < ix.len() && !(cl <= p <= cr) && !(cl <= q <= cr) && !same_stack(ns, p, q) implies kv(keys, ix, p)
        <= kv(keys, ix, q) by {
        if same_stack(stack, p, q) {
            let t = choose|t: int| 0 <= t < stack.len() && (#[trigger] stack[t]).0 <= p <= stack[t].1 && stack[t].0 <= q <= stack[t].1;
            assert(ns[t] == stack[t]);
            assert(same_stack(ns, p, q));
        }
        if l <= p <= ir && l <= q <= ir {
            if lo <= p <= hi && lo <= q <= hi {
                assert(same_stack(ns, p, q));
            }
            assert(kv(keys, ix, p) <= a);
            assert(kv(keys, ix, q) >= a);
        }
    }
}

fn swap_at(ix: &mut Vec<usize>, a: usize, b: usize)
    requires
        a < old(ix)@.len(),
        b < old(ix)@.len(),
    ensures
        final(ix)@ == old(ix)@.update(a as int, old(ix)@[b as int]).update(b as int, old(ix)@[a as int]),
{
    let t = ix[a];
    let u = ix[b];
    ix.set(a, u);
    ix.set(b, t);
}

/// An index sort reads every value, each once, in ascending order: the
/// keys read along it never decrease.
pub proof fn lemma_sorted_keys_ascend(keys: Seq<i64>, order: Seq<usize>, a: int, b: int)
    requires
        is_index_permutation(order, keys.len() as int),
        ascending_order(keys, order),
        0 <= a <= b < order.len(),
    ensures
        keys[order[a] as int] <= keys[order[b] as int],
        a != b ==> order[a] != order[b],
{
    if a < b {
        assert(keys[order[a] as int] <= keys[order[b] as int]);
    }
}

} // verus!
