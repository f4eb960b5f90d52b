//! A bound on the flips of a legalization around a new vertex.
//!
//! Every flip of such a legalization replaces an edge that does not touch
//! the new vertex by one that does, so there are no more flips than there
//! are half-edges: the limit that a legalization is given never cuts it.
use vstd::prelude::*;
use crate::handles::twin_index;
use crate::math::Point2;
use crate::mesh::Mesh;
use crate::orientation::{
    all_ccw, lemma_flip_keeps_ccw, lemma_flip_keeps_stack, lemma_spoke_is_legal, sees_vertex,
    stack_sees,
};

verus! {

/// The half-edge `e` neither begins nor ends in the vertex `v`.
pub open spec fn far_from(m: Mesh, v: int, e: int) -> bool {
    m.origin(e) != v && m.target(e) != v
}

/// The number of half-edges below `k` that neither begin nor end in `v`.
pub open spec fn count_far(m: Mesh, v: int, k: nat) -> nat
    decreases k,
{
    if k == 0 {
        0
    } else {
        count_far(m, v, (k - 1) as nat) + (if far_from(m, v, k - 1) {
            1nat
        } else {
            0nat
        })
    }
}

/// There are no more such half-edges than half-edges.
pub proof fn lemma_count_far_bound(m: Mesh, v: int, k: nat)
    ensures
        count_far(m, v, k) <= k,
    decreases k,
{
    if k > 0 {
        lemma_count_far_bound(m, v, (k - 1) as nat);
    }
}

/// Where two half-edges that were far from `v` touch it in `r` and nothing
/// else differs, `r` has at least two such half-edges less than `m`, counted
/// beyond both.
pub proof fn lemma_count_far_drops(m: Mesh, r: Mesh, v: int, a: int, b: int, k: nat)
    requires
        a != b,
        far_from(m, v, a),
        far_from(m, v, b),
        !far_from(r, v, a),
        !far_from(r, v, b),
        forall|i: int| 0 <= i < k && i != a && i != b ==> far_from(r, v, i) == far_from(m, v, i),
    ensures
        count_far(r, v, k) + (if 0 <= a < k {
            1nat
        } else {
            0nat
        }) + (if 0 <= b < k {
            1nat
        } else {
            0nat
        }) == count_far(m, v, k),
    decreases k,
{
    if k > 0 {
        lemma_count_far_drops(m, r, v, a, b, (k - 1) as nat);
    }
}

/// A legalization around the vertex `v` that may make as many flips as there
/// are half-edges far from `v` does not stop short.
pub proof fn lemma_legalize_completes(
    m: Mesh,
    pos: Seq<Point2>,
    stack: Seq<usize>,
    v: int,
    flips: nat,
)
    requires
        m.wf(),
        m.num_half_edges() <= usize::MAX,
        all_ccw(m, pos),
        stack_sees(m, stack, v),
        flips >= count_far(m, v, m.num_half_edges() as nat),
    ensures
        !m.legalize_stops_short(pos, stack, pos[v], flips),
    decreases stack.len() + 3 * flips,
{
    if stack.len() > 0 {
        let e = stack.last() as int;
        let rest = stack.drop_last();
        assert(sees_vertex(m, stack[stack.len() - 1] as int, v));
        assert forall|i: int| 0 <= i < rest.len() implies sees_vertex(
            m,
            #[trigger] rest[i] as int,
            v,
        ) by {
            assert(rest[i] == stack[i]);
        }
        if m.valid_edge(e) && m.flippable(e) && m.violates_delaunay(pos, e, pos[v]) {
            let t = twin_index(e);
            if m.origin(e) == v || m.target(e) == v {
                lemma_spoke_is_legal(m, pos, e, v);
            }
            assert(m.apex(e) == v);
            lemma_flip_keeps_ccw(m, pos, e, v);
            m.lemma_flip_cw_wf(e);
            m.lemma_flip_context(e);
            let f = m.flip_cw(e);
            let n = m.num_half_edges() as nat;
            assert(m.edge_ok(e) && m.edge_ok(t));
            assert(far_from(m, v, e));
            assert(far_from(m, v, t));
            assert(f.edge_ok(e) && f.edge_ok(t));
            assert(f.origin(e) == v);
            assert(!far_from(f, v, e));
            assert(!far_from(f, v, t));
            assert forall|i: int| 0 <= i < n && i != e && i != t implies far_from(f, v, i)
                == far_from(m, v, i) by {
                assert(m.edge_ok(i));
                assert(f.edge_ok(i));
                assert(f.origin(i) == m.origin(i));
                assert(f.origin(twin_index(i)) == m.origin(twin_index(i)));
            }
            lemma_count_far_drops(m, f, v, e, t, n);
            let next_stack = rest.push(m.next(t) as usize).push(m.prev(t) as usize);
            assert forall|i: int| 0 <= i < next_stack.len() implies sees_vertex(
                f,
                #[trigger] next_stack[i] as int,
                v,
            ) by {
                if i < rest.len() {
                    assert(next_stack[i] == rest[i]);
                    lemma_flip_keeps_stack(m, e, v, rest[i] as int);
                } else {
                    lemma_flip_keeps_stack(m, e, v, e);
                    assert(m.valid_edge(m.next(t)));
                    assert(m.valid_edge(m.prev(t)));
                    assert(next_stack[rest.len() as int] == m.next(t) as usize);
                    assert(next_stack[rest.len() as int + 1] == m.prev(t) as usize);
                }
            }
            lemma_legalize_completes(f, pos, next_stack, v, (flips - 1) as nat);
        } else {
            lemma_legalize_completes(m, pos, rest, v, flips);
        }
    }
}

} // verus!
