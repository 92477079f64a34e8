//! Reachability along the arcs of a directed graph.

use vstd::prelude::*;

verus! {

/// An arc joins the node at `i` of `path` to the next one.
pub open spec fn joined(arcs: Seq<(usize, usize)>, path: Seq<usize>, i: int) -> bool {
    arcs.contains((path[i], path[i + 1]))
}

/// A path: every node of `path` is joined to the next one by an arc.
pub open spec fn is_path(arcs: Seq<(usize, usize)>, path: Seq<usize>) -> bool {
    &&& path.len() > 0
    &&& forall|i: int| 0 <= i < path.len() - 1 ==> #[trigger] joined(arcs, path, i)
}

/// A path that starts at `a` and ends at `b`.
pub open spec fn is_path_between(
    arcs: Seq<(usize, usize)>,
    path: Seq<usize>,
    a: usize,
    b: usize,
) -> bool {
    is_path(arcs, path) && path.first() == a && path.last() == b
}

/// `b` can be reached from `a` along zero or more arcs.
pub open spec fn reaches(arcs: Seq<(usize, usize)>, a: usize, b: usize) -> bool {
    exists|path: Seq<usize>| #[trigger] is_path_between(arcs, path, a, b)
}

/// `b` can be reached from `a` along one or more arcs.
pub open spec fn precedes(arcs: Seq<(usize, usize)>, a: usize, b: usize) -> bool {
    exists|m: usize| #[trigger] arcs.contains((a, m)) && reaches(arcs, m, b)
}

/// No arc leads back to where it came from.
pub open spec fn acyclic(arcs: Seq<(usize, usize)>) -> bool {
    forall|a: usize, b: usize| #[trigger] arcs.contains((a, b)) ==> !reaches(arcs, b, a)
}

/// Both ends of every arc are among the first `size` nodes.
pub open spec fn arcs_within(arcs: Seq<(usize, usize)>, size: nat) -> bool {
    forall|i: int| 0 <= i < arcs.len() ==> (#[trigger] arcs[i]).0 < size && arcs[i].1 < size
}

/// `found` lists the indices of the arcs that start at `node`, the latest arc first.
pub open spec fn lists_arcs_from(
    arcs: Seq<(usize, usize)>,
    node: usize,
    found: Seq<usize>,
) -> bool {
    &&& forall|j: int, k: int| 0 <= j < k < found.len() ==> found[j] > found[k]
    &&& forall|i: usize| #[trigger]
        found.contains(i) <==> i < arcs.len() && arcs[i as int].0 == node
}

/// `found` lists the indices of the arcs that end at `node`, with their starts, the latest arc
/// first.
pub open spec fn lists_arcs_into(
    arcs: Seq<(usize, usize)>,
    node: usize,
    found: Seq<(usize, usize)>,
) -> bool {
    &&& forall|j: int, k: int| 0 <= j < k < found.len() ==> (#[trigger] found[j]).0 > (#[trigger]
        found[k]).0
    &&& forall|i: usize, start: usize| #[trigger]
        found.contains((i, start)) <==> i < arcs.len() && arcs[i as int] == (start, node)
}

/// `order` lists each of the first `size` nodes once, and the start of every arc before its end.
pub open spec fn is_topological_order(
    arcs: Seq<(usize, usize)>,
    size: nat,
    order: Seq<usize>,
) -> bool {
    &&& order.no_duplicates()
    &&& forall|n: usize| #[trigger] order.contains(n) <==> n < size
    &&& forall|i: int, j: int|
        0 <= i < order.len() && 0 <= j < order.len() && #[trigger] arcs.contains(
            (order[i], order[j]),
        ) ==> i < j
}

/// Every node reaches itself.
pub proof fn lemma_reaches_self(arcs: Seq<(usize, usize)>, a: usize)
    ensures
        reaches(arcs, a, a),
{
    assert(is_path_between(arcs, seq![a], a, a));
}

/// An arc is a path.
pub proof fn lemma_arc_reaches(arcs: Seq<(usize, usize)>, a: usize, b: usize)
    requires
        arcs.contains((a, b)),
    ensures
        reaches(arcs, a, b),
        precedes(arcs, a, b),
{
    let path = seq![a, b];
    assert(joined(arcs, path, 0));
    assert(is_path_between(arcs, path, a, b));
    lemma_reaches_self(arcs, b);
}

/// Paths can be joined.
pub proof fn lemma_reaches_transitive(arcs: Seq<(usize, usize)>, a: usize, b: usize, c: usize)
    requires
        reaches(arcs, a, b),
        reaches(arcs, b, c),
    ensures
        reaches(arcs, a, c),
{
    let p = choose|p: Seq<usize>| is_path_between(arcs, p, a, b);
    let q = choose|q: Seq<usize>| is_path_between(arcs, q, b, c);
    let r = p + q.drop_first();
    assert forall|i: int| 0 <= i < r.len() - 1 implies #[trigger] joined(arcs, r, i) by {
        if i < p.len() - 1 {
            assert(joined(arcs, p, i));
        } else {
            assert(joined(arcs, q, i - (p.len() - 1)));
        }
    }
    assert(r.last() == c) by {
        if q.len() == 1 {
            assert(r =~= p);
        } else {
            assert(r.last() == q.last());
        }
    }
    assert(is_path_between(arcs, r, a, c));
}

/// A path of two nodes or more ends with an arc.
pub proof fn lemma_reaches_last_arc(arcs: Seq<(usize, usize)>, a: usize, b: usize)
    requires
        reaches(arcs, a, b),
        a != b,
    ensures
        exists|m: usize| #[trigger] arcs.contains((m, b)) && reaches(arcs, a, m),
{
    let p = choose|p: Seq<usize>| is_path_between(arcs, p, a, b);
    assert(p.len() >= 2);
    let m = p[p.len() - 2];
    let q = p.drop_last();
    assert(is_path_between(arcs, q, a, m)) by {
        assert forall|i: int| 0 <= i < q.len() - 1 implies #[trigger] joined(arcs, q, i) by {
            assert(joined(arcs, p, i));
        }
    }
    assert(joined(arcs, p, p.len() - 2));
}

/// What precedes a node is the start of one of the arcs into it, or precedes such a start.
pub proof fn lemma_precedes_by_last_arc(arcs: Seq<(usize, usize)>, a: usize, b: usize)
    ensures
        precedes(arcs, a, b) <==> exists|s: usize| #[trigger]
            arcs.contains((s, b)) && (a == s || precedes(arcs, a, s)),
{
    if precedes(arcs, a, b) {
        let m = choose|m: usize| #[trigger] arcs.contains((a, m)) && reaches(arcs, m, b);
        if m == b {
            assert(arcs.contains((a, b)));
        } else {
            lemma_reaches_last_arc(arcs, m, b);
            let s = choose|s: usize| #[trigger] arcs.contains((s, b)) && reaches(arcs, m, s);
            assert(precedes(arcs, a, s));
        }
    }
    if exists|s: usize| #[trigger] arcs.contains((s, b)) && (a == s || precedes(arcs, a, s)) {
        let s = choose|s: usize| #[trigger]
            arcs.contains((s, b)) && (a == s || precedes(arcs, a, s));
        lemma_arc_reaches(arcs, s, b);
        if a != s {
            let m = choose|m: usize| #[trigger] arcs.contains((a, m)) && reaches(arcs, m, s);
            lemma_reaches_transitive(arcs, m, s, b);
        }
    }
}

/// A path after one more arc from `a` to `b`, either went along the old arcs, or went along them
/// to `a` and from `b`.
pub proof fn lemma_reaches_after_push(
    arcs: Seq<(usize, usize)>,
    a: usize,
    b: usize,
    x: usize,
    y: usize,
)
    requires
        reaches(arcs.push((a, b)), x, y),
    ensures
        reaches(arcs, x, y) || (reaches(arcs, x, a) && reaches(arcs, b, y)),
{
    let p = choose|p: Seq<usize>| is_path_between(arcs.push((a, b)), p, x, y);
    lemma_path_after_push(arcs, a, b, p);
}

proof fn lemma_path_after_push(arcs: Seq<(usize, usize)>, a: usize, b: usize, p: Seq<usize>)
    requires
        is_path(arcs.push((a, b)), p),
    ensures
        reaches(arcs, p.first(), p.last()) || (reaches(arcs, p.first(), a) && reaches(
            arcs,
            b,
            p.last(),
        )),
    decreases p.len(),
{
    let more = arcs.push((a, b));
    if p.len() == 1 {
        lemma_reaches_self(arcs, p[0]);
    } else {
        let q = p.drop_last();
        let s = q.last();
        let t = p.last();
        assert forall|i: int| 0 <= i < q.len() - 1 implies #[trigger] joined(more, q, i) by {
            assert(joined(more, p, i));
        }
        lemma_path_after_push(arcs, a, b, q);
        assert(joined(more, p, q.len() - 1));
        assert(more.contains((s, t)));
        if arcs.contains((s, t)) {
            lemma_arc_reaches(arcs, s, t);
            if reaches(arcs, p.first(), s) {
                lemma_reaches_transitive(arcs, p.first(), s, t);
            } else {
                lemma_reaches_transitive(arcs, b, s, t);
            }
        } else {
            let k = choose|k: int| 0 <= k < more.len() && more[k] == (s, t);
            if k < arcs.len() {
                assert(arcs[k] == (s, t));
            }
            assert((s, t) == (a, b));
            lemma_reaches_self(arcs, b);
        }
    }
}

/// An arc that closes no path keeps a graph acyclic.
pub proof fn lemma_push_keeps_acyclic(arcs: Seq<(usize, usize)>, a: usize, b: usize)
    requires
        acyclic(arcs),
        !reaches(arcs, b, a),
    ensures
        acyclic(arcs.push((a, b))),
{
    let more = arcs.push((a, b));
    assert forall|s: usize, t: usize| #[trigger] more.contains((s, t)) implies !reaches(
        more,
        t,
        s,
    ) by {
        if reaches(more, t, s) {
            lemma_reaches_after_push(arcs, a, b, t, s);
            if arcs.contains((s, t)) {
                if !reaches(arcs, t, s) {
                    lemma_arc_reaches(arcs, s, t);
                    lemma_reaches_transitive(arcs, b, s, t);
                    lemma_reaches_transitive(arcs, b, t, a);
                }
            } else {
                let k = choose|k: int| 0 <= k < more.len() && more[k] == (s, t);
                if k < arcs.len() {
                    assert(arcs[k] == (s, t));
                }
                assert((s, t) == (a, b));
            }
        }
    }
}

/// The nodes, among the first `size`, that precede `n`.
pub open spec fn ancestors(arcs: Seq<(usize, usize)>, size: nat, n: usize) -> Set<usize> {
    Set::new(|m: usize| m < size && precedes(arcs, m, n))
}

/// The first `size` nodes.
spec fn below(size: nat) -> Set<usize> {
    Set::new(|m: usize| m < size)
}

proof fn lemma_below_finite(size: nat)
    requires
        size <= usize::MAX + 1,
    ensures
        below(size).finite(),
{
    let range = vstd::set_lib::set_int_range(0, size as int);
    let all = range.map(|i: int| i as usize);
    vstd::set_lib::lemma_int_range(0, size as int);
    range.lemma_map_finite(|i: int| i as usize);
    assert forall|m: usize| below(size).contains(m) implies all.contains(m) by {
        assert(range.contains(m as int));
        assert((m as int) as usize == m);
    }
    vstd::set_lib::lemma_set_subset_finite(all, below(size));
}

/// There are finitely many ancestors.
pub proof fn lemma_ancestors_finite(arcs: Seq<(usize, usize)>, size: nat, n: usize)
    requires
        size <= usize::MAX + 1,
    ensures
        ancestors(arcs, size, n).finite(),
{
    lemma_below_finite(size);
    assert(ancestors(arcs, size, n).subset_of(below(size)));
    vstd::set_lib::lemma_set_subset_finite(below(size), ancestors(arcs, size, n));
}

/// In an acyclic graph, no node precedes itself.
pub proof fn lemma_not_before_itself(arcs: Seq<(usize, usize)>, n: usize)
    requires
        acyclic(arcs),
    ensures
        !precedes(arcs, n, n),
{
    if precedes(arcs, n, n) {
        let m = choose|m: usize| #[trigger] arcs.contains((n, m)) && reaches(arcs, m, n);
        assert(false);
    }
}

/// The start of an arc has fewer ancestors than its end.
pub proof fn lemma_fewer_ancestors(arcs: Seq<(usize, usize)>, size: nat, s: usize, n: usize)
    requires
        size <= usize::MAX + 1,
        acyclic(arcs),
        arcs_within(arcs, size),
        arcs.contains((s, n)),
    ensures
        ancestors(arcs, size, s).len() < ancestors(arcs, size, n).len(),
{
    lemma_ancestors_finite(arcs, size, n);
    lemma_ancestors_finite(arcs, size, s);
    let k = choose|k: int| 0 <= k < arcs.len() && arcs[k] == (s, n);
    assert(arcs[k].0 < size);
    lemma_arc_reaches(arcs, s, n);
    assert(ancestors(arcs, size, n).contains(s));
    lemma_not_before_itself(arcs, s);
    assert forall|m: usize| ancestors(arcs, size, s).contains(m) implies ancestors(
        arcs,
        size,
        n,
    ).contains(m) by {
        lemma_precedes_by_last_arc(arcs, m, n);
    }
    let smaller = ancestors(arcs, size, s);
    let larger = ancestors(arcs, size, n);
    vstd::set_lib::lemma_len_subset(smaller.insert(s), larger);
}

/// The nodes, among the first `size`, that `n` precedes.
pub open spec fn descendants(arcs: Seq<(usize, usize)>, size: nat, n: usize) -> Set<usize> {
    Set::new(|m: usize| m < size && precedes(arcs, n, m))
}

/// There are finitely many descendants.
pub proof fn lemma_descendants_finite(arcs: Seq<(usize, usize)>, size: nat, n: usize)
    requires
        size <= usize::MAX + 1,
    ensures
        descendants(arcs, size, n).finite(),
{
    lemma_below_finite(size);
    assert(descendants(arcs, size, n).subset_of(below(size)));
    vstd::set_lib::lemma_set_subset_finite(below(size), descendants(arcs, size, n));
}

/// The end of an arc has fewer descendants than its start.
pub proof fn lemma_fewer_descendants(arcs: Seq<(usize, usize)>, size: nat, n: usize, t: usize)
    requires
        size <= usize::MAX + 1,
        acyclic(arcs),
        arcs_within(arcs, size),
        arcs.contains((n, t)),
    ensures
        descendants(arcs, size, t).len() < descendants(arcs, size, n).len(),
{
    lemma_descendants_finite(arcs, size, n);
    lemma_descendants_finite(arcs, size, t);
    let k = choose|k: int| 0 <= k < arcs.len() && arcs[k] == (n, t);
    assert(arcs[k].1 < size);
    lemma_arc_reaches(arcs, n, t);
    assert(descendants(arcs, size, n).contains(t));
    lemma_not_before_itself(arcs, t);
    assert forall|m: usize| descendants(arcs, size, t).contains(m) implies descendants(
        arcs,
        size,
        n,
    ).contains(m) by {
        let s = choose|s: usize| #[trigger] arcs.contains((t, s)) && reaches(arcs, s, m);
        lemma_arc_reaches(arcs, t, s);
        lemma_reaches_transitive(arcs, t, s, m);
    }
    let smaller = descendants(arcs, size, t);
    let larger = descendants(arcs, size, n);
    vstd::set_lib::lemma_len_subset(smaller.insert(t), larger);
}

proof fn lemma_path_in_order(
    arcs: Seq<(usize, usize)>,
    size: nat,
    order: Seq<usize>,
    path: Seq<usize>,
    i: int,
    j: int,
)
    requires
        is_topological_order(arcs, size, order),
        arcs_within(arcs, size),
        is_path(arcs, path),
        0 <= i < order.len(),
        0 <= j < order.len(),
        order[i] == path.first(),
        order[j] == path.last(),
    ensures
        i <= j,
    decreases path.len(),
{
    if path.len() > 1 {
        let shorter = path.drop_last();
        assert forall|k: int| 0 <= k < shorter.len() - 1 implies #[trigger] joined(
            arcs,
            shorter,
            k,
        ) by {
            assert(joined(arcs, path, k));
        }
        let s = shorter.last();
        assert(joined(arcs, path, path.len() - 2));
        let a = choose|a: int| 0 <= a < arcs.len() && arcs[a] == (s, path.last());
        assert(arcs[a].0 < size);
        assert(order.contains(s));
        let m = choose|m: int| 0 <= m < order.len() && order[m] == s;
        lemma_path_in_order(arcs, size, order, shorter, i, m);
        assert(arcs.contains((order[m], order[j])));
    }
}

/// In a topological order, a node comes after all that precede it.
pub proof fn lemma_precedes_in_order(
    arcs: Seq<(usize, usize)>,
    size: nat,
    order: Seq<usize>,
    m: usize,
    j: int,
)
    requires
        is_topological_order(arcs, size, order),
        arcs_within(arcs, size),
        0 <= j < order.len(),
        precedes(arcs, m, order[j]),
    ensures
        exists|i: int| 0 <= i < j && order[i] == m,
{
    let t = choose|t: usize| #[trigger] arcs.contains((m, t)) && reaches(arcs, t, order[j]);
    let a = choose|a: int| 0 <= a < arcs.len() && arcs[a] == (m, t);
    assert(arcs[a].0 < size && arcs[a].1 < size);
    assert(order.contains(m) && order.contains(t));
    let i = choose|i: int| 0 <= i < order.len() && order[i] == m;
    let k = choose|k: int| 0 <= k < order.len() && order[k] == t;
    assert(arcs.contains((order[i], order[k])));
    let path = choose|path: Seq<usize>| is_path_between(arcs, path, t, order[j]);
    lemma_path_in_order(arcs, size, order, path, k, j);
}

} // verus!
