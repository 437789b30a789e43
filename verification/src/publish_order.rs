use vstd::prelude::*;

verus! {

/// Number of edges `(x, y)` leaving `x` whose target `y` is not yet in `done`.
pub open spec fn pending(es: Seq<(usize, usize)>, x: usize, done: Seq<usize>) -> nat
    decreases es.len(),
{
    if es.len() == 0 {
        0
    } else {
        pending(es.drop_last(), x, done) + (if es.last().0 == x && !done.contains(es.last().1) {
            1nat
        } else {
            0nat
        })
    }
}

/// Number of edges equal to `(x, y)`.
pub open spec fn hits(es: Seq<(usize, usize)>, x: usize, y: usize) -> nat
    decreases es.len(),
{
    if es.len() == 0 {
        0
    } else {
        hits(es.drop_last(), x, y) + (if es.last().0 == x && es.last().1 == y { 1nat } else { 0nat })
    }
}

/// In `order`, the target of every edge leaving `order[i]` comes before position `i`.
pub open spec fn targets_first(order: Seq<usize>, es: Seq<(usize, usize)>) -> bool {
    forall|i: int, e: int|
        0 <= i < order.len() && 0 <= e < es.len() && #[trigger] es[e].0 == #[trigger] order[i]
            ==> exists|j: int| 0 <= j < i && order[j] == es[e].1
}

/// Every node below `m` that `order` leaves out has an edge to a node that it also leaves out.
pub open spec fn left_out_blocked(order: Seq<usize>, es: Seq<(usize, usize)>, m: usize) -> bool {
    forall|x: usize|
        x < m && !order.contains(x) ==> exists|e: int|
            0 <= e < es.len() && #[trigger] es[e].0 == x && !order.contains(es[e].1)
}

pub proof fn lemma_pending_push(es: Seq<(usize, usize)>, x: usize, done: Seq<usize>, y: usize)
    requires
        !done.contains(y),
    ensures
        pending(es, x, done.push(y)) + hits(es, x, y) == pending(es, x, done),
    decreases es.len(),
{
    if es.len() > 0 {
        lemma_pending_push(es.drop_last(), x, done, y);
        let l = es.last();
        assert(done.push(y).contains(l.1) == (done.contains(l.1) || l.1 == y)) by {
            if done.push(y).contains(l.1) {
                let w = choose|i: int| 0 <= i < done.push(y).len() && done.push(y)[i] == l.1;
                if w < done.len() {
                    assert(done[w] == l.1);
                }
            }
            if done.contains(l.1) {
                let w = choose|i: int| 0 <= i < done.len() && done[i] == l.1;
                assert(done.push(y)[w] == l.1);
            }
            if l.1 == y {
                assert(done.push(y)[done.len() as int] == y);
            }
        }
    }
}

pub proof fn lemma_pending_zero(es: Seq<(usize, usize)>, x: usize, done: Seq<usize>)
    requires
        pending(es, x, done) == 0,
    ensures
        forall|e: int| 0 <= e < es.len() && #[trigger] es[e].0 == x ==> done.contains(es[e].1),
    decreases es.len(),
{
    if es.len() > 0 {
        lemma_pending_zero(es.drop_last(), x, done);
        assert forall|e: int| 0 <= e < es.len() && #[trigger] es[e].0 == x implies done.contains(es[e].1) by {
            if e < es.len() - 1 {
                assert(es.drop_last()[e] == es[e]);
            }
        }
    }
}

pub proof fn lemma_pending_positive(es: Seq<(usize, usize)>, x: usize, done: Seq<usize>)
    requires
        pending(es, x, done) > 0,
    ensures
        exists|e: int| 0 <= e < es.len() && #[trigger] es[e].0 == x && !done.contains(es[e].1),
    decreases es.len(),
{
    if es.len() > 0 {
        let l = es.last();
        if l.0 == x && !done.contains(l.1) {
            assert(es[es.len() - 1].0 == x);
        } else {
            lemma_pending_positive(es.drop_last(), x, done);
            let w = choose|e: int| 0 <= e < es.drop_last().len() && #[trigger] es.drop_last()[e].0 == x && !done.contains(es.drop_last()[e].1);
            assert(es[w] == es.drop_last()[w]);
        }
    }
}

pub proof fn lemma_pending_le_len(es: Seq<(usize, usize)>, x: usize, done: Seq<usize>)
    ensures
        pending(es, x, done) <= es.len(),
    decreases es.len(),
{
    if es.len() > 0 {
        lemma_pending_le_len(es.drop_last(), x, done);
    }
}

pub proof fn lemma_hits_prefix(es: Seq<(usize, usize)>, k: int, x: usize, y: usize)
    requires
        0 <= k <= es.len(),
    ensures
        hits(es.take(k), x, y) <= hits(es, x, y),
    decreases es.len(),
{
    if k < es.len() {
        assert(es.drop_last().take(k) =~= es.take(k));
        lemma_hits_prefix(es.drop_last(), k, x, y);
    } else {
        assert(es.take(k) =~= es);
    }
}

/// A sequence of distinct values below `m` has at most `m` elements.
pub proof fn lemma_distinct_below(s: Seq<usize>, m: usize)
    requires
        s.no_duplicates(),
        forall|i: int| 0 <= i < s.len() ==> s[i] < m,
    ensures
        s.len() <= m,
    decreases m,
{
    if m == 0 {
        if s.len() > 0 {
            assert(s[0] < 0);
        }
    } else {
        let top = (m - 1) as usize;
        if s.contains(top) {
            let k = choose|i: int| 0 <= i < s.len() && s[i] == top;
            let t = s.remove(k);
            assert forall|i: int| 0 <= i < t.len() implies t[i] < top by {
                if i < k {
                    assert(t[i] == s[i]);
                } else {
                    assert(t[i] == s[i + 1]);
                }
            }
            assert(t.no_duplicates()) by {
                assert forall|i: int, j: int| 0 <= i < t.len() && 0 <= j < t.len() && i != j implies t[i] != t[j] by {
                    let si = if i < k { i } else { i + 1 };
                    let sj = if j < k { j } else { j + 1 };
                    assert(t[i] == s[si]);
                    assert(t[j] == s[sj]);
                }
            }
            lemma_distinct_below(t, top);
        } else {
            assert forall|i: int| 0 <= i < s.len() implies s[i] < top by {
                assert(s[i] != top);
            }
            lemma_distinct_below(s, top);
        }
    }
}

/// Orders the nodes `0..m` so that the target of each edge comes before its
/// source: the nodes without pending edges are taken first, in increasing order,
/// and each node joins the end of the queue as soon as its last pending edge is
/// resolved. Nodes on a cycle, and those that depend on one, are left out.
pub fn dependency_order(m: usize, edges: &[(usize, usize)]) -> (q: Vec<usize>)
    requires
        forall|e: int| 0 <= e < edges.len() ==> (#[trigger] edges[e]).0 < m && edges[e].1 < m,
    ensures
        q@.no_duplicates(),
        forall|i: int| 0 <= i < q@.len() ==> q@[i] < m,
        targets_first(q@, edges@),
        left_out_blocked(q@, edges@, m),
{
    let es = edges;
    let mut deg: Vec<usize> = Vec::new();
    let mut x: usize = 0;
    while x < m
        invariant
            x <= m,
            deg@.len() == x,
            forall|y: int| 0 <= y < x ==> deg@[y] == 0,
        decreases m - x,
    {
        deg.push(0);
        x = x + 1;
    }
    let mut k: usize = 0;
    while k < es.len()
        invariant
            forall|e: int| 0 <= e < es.len() ==> (#[trigger] es[e]).0 < m && es[e].1 < m,
            k <= es@.len(),
            deg@.len() == m,
            forall|y: usize| y < m ==> deg@[y as int] == pending(es@.take(k as int), y, Seq::<usize>::empty()),
        decreases es@.len() - k,
    {
        let f = es[k].0;
        proof {
            assert(es@.take(k + 1).drop_last() =~= es@.take(k as int));
            assert(es@.take(k + 1).last() == es@[k as int]);
            lemma_pending_le_len(es@.take(k as int), f, Seq::<usize>::empty());
            assert(deg@[f as int] == pending(es@.take(k as int), f, Seq::<usize>::empty()));
        }
        let d = deg[f];
        deg.set(f, d + 1);
        k = k + 1;
    }
    assert(es@.take(es@.len() as int) =~= es@);
    let mut q: Vec<usize> = Vec::new();
    let mut x: usize = 0;
    while x < m
        invariant
            x <= m,
            deg@.len() == m,
            forall|y: usize| y < m ==> deg@[y as int] == pending(es@, y, Seq::<usize>::empty()),
            q@.no_duplicates(),
            forall|i: int| 0 <= i < q@.len() ==> q@[i] < x,
            forall|y: usize| y < m ==> (q@.contains(y) <==> (y < x && deg@[y as int] == 0)),
            forall|i: int| 0 <= i < q@.len() ==> deg@[q@[i] as int] == 0,
        decreases m - x,
    {
        if deg[x] == 0 {
            let ghost old_q = q@;
            q.push(x);
            proof {
                assert forall|y: usize| y < m implies (q@.contains(y) <==> (y < x + 1 && deg@[y as int] == 0)) by {
                    if q@.contains(y) {
                        let w = choose|i: int| 0 <= i < q@.len() && q@[i] == y;
                        if w < old_q.len() {
                            assert(old_q[w] == y);
                        }
                    }
                    if y == x {
                        assert(q@[old_q.len() as int] == y);
                    } else if y < x && deg@[y as int] == 0 {
                        let w = choose|i: int| 0 <= i < old_q.len() && old_q[i] == y;
                        assert(q@[w] == y);
                    }
                }
            }
        }
        x = x + 1;
    }
    proof {
        assert forall|i: int, e: int|
            0 <= i < q@.len() && 0 <= e < es@.len() && #[trigger] es@[e].0 == #[trigger] q@[i]
            implies exists|j: int| 0 <= j < i && q@[j] == es@[e].1 by {
            lemma_pending_zero(es@, q@[i], Seq::<usize>::empty());
        }
    }
    proof {
        lemma_distinct_below(q@, m);
        assert(q@.take(0) =~= Seq::<usize>::empty());
    }
    let mut head: usize = 0;
    while head < q.len()
        invariant
            forall|e: int| 0 <= e < es.len() ==> (#[trigger] es[e]).0 < m && es[e].1 < m,
            head <= q@.len(),
            q@.len() <= m,
            deg@.len() == m,
            q@.no_duplicates(),
            forall|i: int| 0 <= i < q@.len() ==> q@[i] < m,
            forall|y: usize| y < m ==> deg@[y as int] == pending(es@, y, q@.take(head as int)),
            forall|y: usize| y < m ==> (q@.contains(y) <==> deg@[y as int] == 0),
            targets_first(q@, es@),
        decreases m - head,
    {
        let id = q[head];
        let ghost done_old = q@.take(head as int);
        proof {
            assert(!done_old.contains(id)) by {
                if done_old.contains(id) {
                    let w = choose|i: int| 0 <= i < done_old.len() && done_old[i] == id;
                    assert(q@[w] == q@[head as int]);
                }
            }
            assert(q@.take(head + 1) =~= done_old.push(id));
            assert forall|y: usize| y < m implies pending(es@, y, done_old.push(id)) + hits(es@, y, id) == pending(es@, y, done_old) by {
                lemma_pending_push(es@, y, done_old, id);
            }
        }
        head = head + 1;
        let mut k: usize = 0;
        while k < es.len()
            invariant
                forall|e: int| 0 <= e < es.len() ==> (#[trigger] es[e]).0 < m && es[e].1 < m,
                0 < head <= q@.len(),
                q@.take(head as int) == done_old.push(id),
                !done_old.contains(id),
                id < m,
                k <= es@.len(),
                deg@.len() == m,
                q@.no_duplicates(),
                forall|i: int| 0 <= i < q@.len() ==> q@[i] < m,
                forall|y: usize| y < m ==> pending(es@, y, done_old.push(id)) + hits(es@, y, id) == pending(es@, y, done_old),
                forall|y: usize| y < m ==> deg@[y as int] + hits(es@.take(k as int), y, id) == pending(es@, y, done_old),
                forall|y: usize| y < m ==> (q@.contains(y) <==> deg@[y as int] == 0),
                targets_first(q@, es@),
            decreases es@.len() - k,
        {
            proof {
                assert(es@.take(k + 1).drop_last() =~= es@.take(k as int));
                assert(es@.take(k + 1).last() == es@[k as int]);
            }
            if es[k].1 == id {
                let f = es[k].0;
                proof {
                    lemma_hits_prefix(es@, k + 1, f, id);
                    assert(pending(es@, f, done_old.push(id)) + hits(es@, f, id) == pending(es@, f, done_old));
                    assert(deg@[f as int] + hits(es@.take(k as int), f, id) == pending(es@, f, done_old));
                    assert(hits(es@.take(k + 1), f, id) == hits(es@.take(k as int), f, id) + 1);
                }
                let d = deg[f];
                deg.set(f, d - 1);
                if d - 1 == 0 {
                    let ghost old_q = q@;
                    proof {
                        assert(!old_q.contains(f));
                        assert(pending(es@, f, done_old.push(id)) == 0);
                        lemma_pending_zero(es@, f, done_old.push(id));
                    }
                    q.push(f);
                    proof {
                        assert(q@.take(head as int) =~= old_q.take(head as int));
                        assert forall|y: usize| y < m implies (q@.contains(y) <==> deg@[y as int] == 0) by {
                            if q@.contains(y) {
                                let w = choose|i: int| 0 <= i < q@.len() && q@[i] == y;
                                if w < old_q.len() {
                                    assert(old_q[w] == y);
                                }
                            }
                            if y == f {
                                assert(q@[old_q.len() as int] == y);
                            } else if deg@[y as int] == 0 {
                                let w = choose|i: int| 0 <= i < old_q.len() && old_q[i] == y;
                                assert(q@[w] == y);
                            }
                        }
                        assert forall|i: int, e: int|
                            0 <= i < q@.len() && 0 <= e < es@.len() && #[trigger] es@[e].0 == #[trigger] q@[i]
                            implies exists|j: int| 0 <= j < i && q@[j] == es@[e].1 by {
                            if i < old_q.len() {
                                assert(old_q[i] == q@[i]);
                                let j = choose|j: int| 0 <= j < i && old_q[j] == es@[e].1;
                                assert(q@[j] == es@[e].1);
                            } else {
                                assert(done_old.push(id).contains(es@[e].1));
                                let j = choose|j: int| 0 <= j < done_old.push(id).len() && done_old.push(id)[j] == es@[e].1;
                                assert(q@.take(head as int)[j] == q@[j]);
                            }
                        }
                        assert(q@.no_duplicates());
                        lemma_distinct_below(q@, m);
                    }
                }
            }
            k = k + 1;
        }
        proof {
            assert(es@.take(es@.len() as int) =~= es@);
            lemma_distinct_below(q@, m);
            assert forall|y: usize| y < m implies deg@[y as int] == pending(es@, y, q@.take(head as int)) by {
                assert(pending(es@, y, done_old.push(id)) + hits(es@, y, id) == pending(es@, y, done_old));
                assert(deg@[y as int] + hits(es@.take(es@.len() as int), y, id) == pending(es@, y, done_old));
            }
        }
    }
    proof {
        assert(q@.take(head as int) =~= q@);
        assert forall|y: usize| y < m && !q@.contains(y) implies exists|e: int|
            0 <= e < es@.len() && #[trigger] es@[e].0 == y && !q@.contains(es@[e].1) by {
            lemma_pending_positive(es@, y, q@);
        }
    }
    q
}

/// When some sequence holding every node below `m` puts the target of every
/// edge first, an order that leaves out only blocked nodes leaves none out.
pub proof fn lemma_orderable_leaves_none_out(q: Seq<usize>, es: Seq<(usize, usize)>, m: usize, order: Seq<usize>)
    requires
        left_out_blocked(q, es, m),
        forall|e: int| 0 <= e < es.len() ==> (#[trigger] es[e]).0 < m && es[e].1 < m,
        forall|x: usize| x < m ==> order.contains(x),
        targets_first(order, es),
    ensures
        forall|x: usize| x < m ==> q.contains(x),
{
    lemma_no_left_out_before(q, es, m, order, order.len() as int);
    assert forall|x: usize| x < m implies q.contains(x) by {
        assert(order.contains(x));
        let p0 = choose|i: int| 0 <= i < order.len() && order[i] == x;
        assert(order[p0] < m);
    }
}

proof fn lemma_no_left_out_before(q: Seq<usize>, es: Seq<(usize, usize)>, m: usize, order: Seq<usize>, p: int)
    requires
        left_out_blocked(q, es, m),
        forall|e: int| 0 <= e < es.len() ==> (#[trigger] es[e]).0 < m && es[e].1 < m,
        targets_first(order, es),
        0 <= p <= order.len(),
    ensures
        forall|i: int| 0 <= i < p && order[i] < m ==> q.contains(order[i]),
    decreases p,
{
    if p > 0 {
        lemma_no_left_out_before(q, es, m, order, p - 1);
        let i = p - 1;
        let x = order[i];
        if x < m && !q.contains(x) {
            let e = choose|e: int| 0 <= e < es.len() && #[trigger] es[e].0 == x && !q.contains(es[e].1);
            assert(es[e].0 == order[i]);
            let j = choose|j: int| 0 <= j < i && order[j] == es[e].1;
            assert(order[j] < m);
        }
    }
}

} // verus!
