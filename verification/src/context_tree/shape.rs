//! The shape of the trees that building gives: every node in the slot of its
//! handle, linked both ways to its parent and children.
use vstd::prelude::*;

use crate::context_tree::events::{applied, UpdateKind, UpdateV};
use crate::context_tree::node::{node_from, refreshed, NodeHandle, NodeV, RawNode};
use crate::context_tree::tree::{
    below, below_children, built_tree, grow, grow_children, handle_block, has_node, kids_of, node, node_ok,
    rebuilt, stops_at, tree_wf, wf_except, without, TreeV,
};

verus! {

/// A tree that keeps the placed nodes of `t1` keeps them sitting well.
proof fn lemma_extend(t1: TreeV, t2: TreeV, pend1: Set<int>, pend2: Set<int>)
    requires
        wf_except(t1, pend1),
        pend1.subset_of(pend2),
        t2.len() >= t1.len(),
        forall|x: int| #[trigger] has_node(t1, x) ==> t2[x] == t1[x],
    ensures
        forall|x: int| #[trigger] has_node(t1, x) ==> node_ok(t2, x, pend2),
{
    assert forall|x: int| #[trigger] has_node(t1, x) implies node_ok(t2, x, pend2) by {
        assert(node_ok(t1, x, pend1));
        let n = node(t1, x);
        assert(node(t2, x) == n);
        assert forall|i: int| 0 <= i < n.children.len() implies {
            let c = #[trigger] n.children[i] as int;
            &&& x < c < t2.len()
            &&& has_node(t2, c)
            &&& node(t2, c).depth == n.depth + 1
            &&& node(t2, c).parent == Some(x as NodeHandle)
        } by {
            let c = n.children[i] as int;
            assert(has_node(t1, c));
            assert(t2[c] == t1[c]);
        }
        if let Some(p) = n.parent {
            if !pend1.contains(p as int) {
                assert(has_node(t1, p as int));
                assert(t2[p as int] == t1[p as int]);
            }
        }
    }
}

/// Building below the `i` first children of `r` (node `h` at depth `d`, its children
/// in the slots from `start` on) keeps the tree sitting well, places those children
/// one level below `h`, and places nothing else under `h`.
proof fn lemma_grow_children(t: TreeV, r: RawNode, h: NodeHandle, d: i32, start: int, i: int, max_depth: Option<i32>, pend: Set<int>)
    requires
        wf_except(t, pend),
        pend.contains(h as int),
        0 <= h < start,
        0 <= d <= h,
        d < i32::MAX,
        forall|p: int| #[trigger] pend.contains(p) ==> p < start,
        t.len() == start + r.children@.len(),
        forall|j: int| start <= j < t.len() ==> #[trigger] t[j] is None,
        0 <= i <= r.children@.len(),
        grow_children(t, r, h, d, start, i, max_depth).len() <= usize::MAX,
    ensures
        ({
            let g = grow_children(t, r, h, d, start, i, max_depth);
            &&& wf_except(g, pend)
            &&& g.len() >= t.len()
            &&& forall|x: int| 0 <= x < start ==> #[trigger] g[x] == t[x]
            &&& forall|j: int| start + i <= j < t.len() ==> #[trigger] g[j] is None
            &&& forall|j: int| 0 <= j < i ==> {
                &&& #[trigger] has_node(g, start + j)
                &&& node(g, start + j).depth == d + 1
                &&& node(g, start + j).parent == Some(h)
            }
            &&& forall|x: int| start <= x < g.len() && #[trigger] has_node(g, x) ==> (node(g, x).parent matches Some(p) && (p == h || start <= p))
            &&& forall|x: int| start <= x < g.len() && #[trigger] has_node(g, x) && node(g, x).parent == Some(h) ==> x < start + i
        }),
    decreases r, 0int, i,
{
    let g = grow_children(t, r, h, d, start, i, max_depth);
    if i == 0 {
        assert(g == t);
        assert forall|x: int| start <= x < g.len() && #[trigger] has_node(g, x) implies (node(g, x).parent matches Some(p) && (p == h || start <= p)) by {
            assert(t[x] is None);
        }
        return;
    }
    broadcast use vstd::std_specs::vec::group_vec_axioms;
    assert(decreases_to!(r => r.children));
    assert(decreases_to!(r.children => r.children@));
    assert(decreases_to!(r.children@ => r.children@[i - 1]));
    let t1 = grow_children(t, r, h, d, start, i - 1, max_depth);
    let c = r.children@[i - 1];
    let slot = start + i - 1;
    let t2 = grow(t1, c, slot as NodeHandle, (d + 1) as i32, max_depth);
    let kids = kids_of(c, (d + 1) as i32, t1.len() as int, max_depth);
    let cn = node_from(c, (d + 1) as i32, slot as NodeHandle, Some(h), kids);
    let t3 = t2.update(slot, Some(cn));
    assert(g == t3);
    crate::context_tree::tree::lemma_grow_children_len(t, r, h, d, start, i - 1, max_depth);
    assert(t1.len() >= t.len());
    crate::context_tree::tree::lemma_grow_len(t1, c, slot as NodeHandle, (d + 1) as i32, max_depth);
    assert(t3.len() == t2.len());
    assert(grow_children(t, r, h, d, start, i - 1, max_depth).len() <= t3.len());
    lemma_grow_children(t, r, h, d, start, i - 1, max_depth, pend);
    // the child is built with its own slot pending
    let pend2 = pend.insert(slot);
    lemma_extend(t1, t1, pend, pend2);
    assert(t1[slot] is None);
    assert forall|p: int| #[trigger] pend2.contains(p) implies p < t1.len() by {
        if p != slot {
            assert(pend.contains(p));
        }
    }
    lemma_grow(t1, c, slot as NodeHandle, (d + 1) as i32, max_depth, pend2);
    assert(t2[slot] == t1[slot]);
    assert(!has_node(t2, slot));
    assert(cn.handle == slot && cn.depth == d + 1 && cn.parent == Some(h) && cn.children == kids);
    // no node placed before the child names it as parent
    assert forall|x: int| #[trigger] has_node(t1, x) implies node(t1, x).parent != Some(slot as NodeHandle) by {
        assert(node_ok(t1, x, pend));
        if node(t1, x).parent == Some(slot as NodeHandle) {
            assert(!pend.contains(slot));
        }
    }
    assert forall|x: int| #[trigger] has_node(t3, x) implies node_ok(t3, x, pend) by {
        if x == slot {
            assert(node(t3, x) == cn);
            assert forall|k: int| 0 <= k < cn.children.len() implies {
                let q = #[trigger] cn.children[k] as int;
                &&& x < q < t3.len()
                &&& has_node(t3, q)
                &&& node(t3, q).depth == cn.depth + 1
                &&& node(t3, q).parent == Some(x as NodeHandle)
            } by {
                let q = cn.children[k] as int;
                assert(kids[k] == cn.children[k]);
                assert(has_node(t2, q));
                assert(q != slot);
                assert(t3[q] == t2[q]);
            }
        } else {
            assert(t3[x] == t2[x]);
            assert(has_node(t2, x));
            assert(node_ok(t2, x, pend2));
            let n = node(t2, x);
            assert(node(t3, x) == n);
            assert forall|k: int| 0 <= k < n.children.len() implies {
                let q = #[trigger] n.children[k] as int;
                &&& x < q < t3.len()
                &&& has_node(t3, q)
                &&& node(t3, q).depth == n.depth + 1
                &&& node(t3, q).parent == Some(x as NodeHandle)
            } by {
                let q = n.children[k] as int;
                assert(has_node(t2, q));
                assert(q != slot);
                assert(t3[q] == t2[q]);
            }
            if let Some(p) = n.parent {
                if p as int == slot {
                    if x < t1.len() {
                        assert(t2[x] == t1[x]);
                        assert(has_node(t1, x));
                        assert(node(t1, x).parent != Some(slot as NodeHandle));
                    } else {
                        assert(kids.contains(x as NodeHandle));
                        let k = choose|k: int| 0 <= k < kids.len() && kids[k] == x as NodeHandle;
                        assert(node(t2, kids[k] as int).depth == (d + 1) + 1);
                        assert(node(t3, slot) == cn);
                        assert(cn.children.contains(x as NodeHandle));
                    }
                } else if !pend.contains(p as int) {
                    assert(!pend2.contains(p as int));
                    assert(has_node(t2, p as int));
                    assert(t3[p as int] == t2[p as int]);
                }
            }
        }
    }
    assert forall|x: int| 0 <= x < start implies #[trigger] t3[x] == t[x] by {
        assert(t3[x] == t2[x]);
        assert(t2[x] == t1[x]);
    }
    assert forall|j: int| start + i <= j < t.len() implies #[trigger] t3[j] is None by {
        assert(t3[j] == t2[j]);
        assert(t2[j] == t1[j]);
    }
    assert forall|j: int| 0 <= j < i implies {
        &&& #[trigger] has_node(t3, start + j)
        &&& node(t3, start + j).depth == d + 1
        &&& node(t3, start + j).parent == Some(h)
    } by {
        if j < i - 1 {
            assert(has_node(t1, start + j));
            assert(t2[start + j] == t1[start + j]);
            assert(t3[start + j] == t2[start + j]);
        } else {
            assert(start + j == slot);
        }
    }
    assert forall|x: int| start <= x < t3.len() && #[trigger] has_node(t3, x) implies (node(t3, x).parent matches Some(p) && (p == h || start <= p)) by {
        if x != slot {
            assert(t3[x] == t2[x]);
            if x < t1.len() {
                assert(t2[x] == t1[x]);
                assert(has_node(t1, x));
            } else {
                assert(has_node(t2, x));
            }
        }
    }
    assert forall|x: int| start <= x < t3.len() && #[trigger] has_node(t3, x) && node(t3, x).parent == Some(h) implies x < start + i by {
        if x != slot {
            assert(t3[x] == t2[x]);
            if x < t1.len() {
                assert(t2[x] == t1[x]);
                assert(has_node(t1, x));
            } else {
                assert(has_node(t2, x));
            }
        }
    }
}

/// Building below element `r` (node `h` at depth `d`, its own slot pending) keeps
/// the tree sitting well and the slots it had, places the children it hands out one
/// level below `h`, and places nothing else under `h`.
proof fn lemma_grow(t: TreeV, r: RawNode, h: NodeHandle, d: i32, max_depth: Option<i32>, pend: Set<int>)
    requires
        wf_except(t, pend),
        pend.contains(h as int),
        0 <= h < t.len(),
        0 <= d <= h,
        forall|p: int| #[trigger] pend.contains(p) ==> p < t.len(),
        grow(t, r, h, d, max_depth).len() <= usize::MAX,
    ensures
        ({
            let g = grow(t, r, h, d, max_depth);
            let kids = kids_of(r, d, t.len() as int, max_depth);
            &&& wf_except(g, pend)
            &&& g.len() >= t.len()
            &&& forall|x: int| 0 <= x < t.len() ==> #[trigger] g[x] == t[x]
            &&& forall|k: int| 0 <= k < kids.len() ==> {
                let c = #[trigger] kids[k] as int;
                &&& t.len() <= c < g.len()
                &&& has_node(g, c)
                &&& node(g, c).depth == d + 1
                &&& node(g, c).parent == Some(h)
            }
            &&& forall|x: int| t.len() <= x < g.len() && #[trigger] has_node(g, x) ==> (node(g, x).parent matches Some(p) && (p == h || t.len() <= p))
            &&& forall|x: int| t.len() <= x < g.len() && #[trigger] has_node(g, x) && node(g, x).parent == Some(h) ==> kids.contains(x as NodeHandle)
        }),
    decreases r, 1int, 0int,
{
    let g = grow(t, r, h, d, max_depth);
    let kids = kids_of(r, d, t.len() as int, max_depth);
    if stops_at(d, max_depth) {
        assert(g == t);
        return;
    }
    let k = r.children@.len() as int;
    let start = t.len() as int;
    let t1 = t + Seq::new(k as nat, |i: int| None);
    assert(g == grow_children(t1, r, h, d, start, k, max_depth));
    assert forall|x: int| #[trigger] has_node(t, x) implies t1[x] == t[x] by {}
    lemma_extend(t, t1, pend, pend);
    assert forall|x: int| #[trigger] has_node(t1, x) implies node_ok(t1, x, pend) by {
        assert(has_node(t, x));
    }
    assert forall|j: int| start <= j < t1.len() implies #[trigger] t1[j] is None by {}
    lemma_grow_children(t1, r, h, d, start, k, max_depth, pend);
    assert(kids == handle_block(start, k));
    assert forall|x: int| 0 <= x < t.len() implies #[trigger] g[x] == t[x] by {
        assert(g[x] == t1[x]);
    }
    assert forall|j: int| 0 <= j < kids.len() implies {
        let c = #[trigger] kids[j] as int;
        &&& t.len() <= c < g.len()
        &&& has_node(g, c)
        &&& node(g, c).depth == d + 1
        &&& node(g, c).parent == Some(h)
    } by {
        assert(kids[j] as int == start + j);
        assert(has_node(g, start + j));
    }
    assert forall|x: int| t.len() <= x < g.len() && #[trigger] has_node(g, x) && node(g, x).parent == Some(h)
        implies kids.contains(x as NodeHandle) by {
        assert(x < start + k);
        assert(kids[x - start] == x as NodeHandle);
    }
}

/// Building a tree from a root element gives a well-formed tree: every node sits in
/// the slot of its handle, one level below a parent that lists it among its
/// children, and one level above children that name it as their parent.
pub proof fn law_built_tree_wf(r: RawNode, max_depth: Option<i32>)
    requires
        built_tree(r, max_depth).len() <= usize::MAX,
    ensures
        tree_wf(built_tree(r, max_depth)),
{
    let t0: TreeV = seq![None];
    let pend = Set::<int>::empty().insert(0);
    assert forall|x: int| #[trigger] has_node(t0, x) implies node_ok(t0, x, pend) by {}
    let g = grow(t0, r, 0, 0, max_depth);
    let kids = kids_of(r, 0, 1, max_depth);
    let root = node_from(r, 0, 0, None, kids);
    let t = g.update(0, Some(root));
    assert(t == built_tree(r, max_depth));
    crate::context_tree::tree::lemma_grow_len(t0, r, 0, 0, max_depth);
    lemma_grow(t0, r, 0, 0, max_depth, pend);
    assert(g[0] == t0[0]);
    assert(root.handle == 0 && root.depth == 0 && root.parent is None && root.children == kids);
    assert forall|x: int| #[trigger] has_node(t, x) implies node_ok(t, x, Set::empty()) by {
        if x == 0 {
            assert(node(t, 0) == root);
            assert forall|k: int| 0 <= k < root.children.len() implies {
                let q = #[trigger] root.children[k] as int;
                &&& 0 < q < t.len()
                &&& has_node(t, q)
                &&& node(t, q).depth == root.depth + 1
                &&& node(t, q).parent == Some(0 as NodeHandle)
            } by {
                let q = root.children[k] as int;
                assert(kids[k] == root.children[k]);
                assert(has_node(g, q));
                assert(t[q] == g[q]);
            }
        } else {
            assert(t[x] == g[x]);
            assert(has_node(g, x));
            assert(node_ok(g, x, pend));
            let n = node(g, x);
            assert forall|k: int| 0 <= k < n.children.len() implies {
                let q = #[trigger] n.children[k] as int;
                &&& x < q < t.len()
                &&& has_node(t, q)
                &&& node(t, q).depth == n.depth + 1
                &&& node(t, q).parent == Some(x as NodeHandle)
            } by {
                let q = n.children[k] as int;
                assert(has_node(g, q));
                assert(t[q] == g[q]);
            }
            if let Some(p) = n.parent {
                if p == 0 {
                    assert(kids.contains(x as NodeHandle));
                    let k = choose|k: int| 0 <= k < kids.len() && kids[k] == x as NodeHandle;
                    assert(node(g, kids[k] as int).depth == 1);
                    assert(node(t, 0) == root);
                } else {
                    assert(!pend.contains(p as int));
                    assert(has_node(g, p as int));
                    assert(t[p as int] == g[p as int]);
                }
            }
        }
    }
}

// ---------------------------------------------------------------------------
// Rebuilding below a node

/// Building never reads the slots that are already there: setting one before or
/// after building gives the same tree.
proof fn lemma_grow_update(t: TreeV, r: RawNode, h: NodeHandle, d: i32, max_depth: Option<i32>, x: int, v: Option<NodeV>)
    requires
        0 <= x < t.len(),
    ensures
        grow(t.update(x, v), r, h, d, max_depth) == grow(t, r, h, d, max_depth).update(x, v),
    decreases r, 1int, 0int,
{
    if stops_at(d, max_depth) {
        return;
    }
    let k = r.children@.len() as int;
    let nones = Seq::new(k as nat, |i: int| None::<NodeV>);
    assert(t.update(x, v) + nones =~= (t + nones).update(x, v));
    lemma_grow_children_update(t + nones, r, h, d, t.len() as int, k, max_depth, x, v);
}

proof fn lemma_grow_children_update(t: TreeV, r: RawNode, h: NodeHandle, d: i32, start: int, i: int, max_depth: Option<i32>, x: int, v: Option<NodeV>)
    requires
        0 <= x < start,
        start + i <= t.len(),
    ensures
        grow_children(t.update(x, v), r, h, d, start, i, max_depth) == grow_children(t, r, h, d, start, i, max_depth).update(x, v),
    decreases r, 0int, i,
{
    if i <= 0 || i > r.children@.len() || d == i32::MAX {
        return;
    }
    broadcast use vstd::std_specs::vec::group_vec_axioms;
    assert(decreases_to!(r => r.children));
    assert(decreases_to!(r.children => r.children@));
    assert(decreases_to!(r.children@ => r.children@[i - 1]));
    lemma_grow_children_update(t, r, h, d, start, i - 1, max_depth, x, v);
    let t1 = grow_children(t, r, h, d, start, i - 1, max_depth);
    crate::context_tree::tree::lemma_grow_children_len(t, r, h, d, start, i - 1, max_depth);
    let c = r.children@[i - 1];
    let slot = start + i - 1;
    lemma_grow_update(t1, c, slot as NodeHandle, (d + 1) as i32, max_depth, x, v);
    let t2 = grow(t1, c, slot as NodeHandle, (d + 1) as i32, max_depth);
    crate::context_tree::tree::lemma_grow_len(t1, c, slot as NodeHandle, (d + 1) as i32, max_depth);
    let cn = node_from(c, (d + 1) as i32, slot as NodeHandle, Some(h), kids_of(c, (d + 1) as i32, t1.len() as int, max_depth));
    assert(t2.update(x, v).update(slot, Some(cn)) =~= t2.update(slot, Some(cn)).update(x, v));
}

/// In a well-formed tree `t`, the handles below node `y` (at or after `h`), read in
/// a tree `t0` that agrees with `t` but maybe at `h`, are placed nodes after `y`,
/// deeper than it, whose parents are `y` or themselves below `y`; and they hold the
/// children of `y` and of each of them.
proof fn lemma_below(t: TreeV, t0: TreeV, h: int, y: int)
    requires
        tree_wf(t),
        has_node(t, h),
        has_node(t, y),
        h <= y,
        t0.len() == t.len(),
        forall|x: int| 0 <= x < t.len() && x != h ==> #[trigger] t0[x] == t[x],
    ensures
        ({
            let m = node(t, y);
            let b = below(t0, m);
            &&& forall|q: NodeHandle| #[trigger] b.contains(q) ==> {
                &&& has_node(t, q as int)
                &&& y < q
                &&& node(t, q as int).depth > m.depth
                &&& node(t, q as int).parent matches Some(p) && (p == y || b.contains(p))
            }
            &&& forall|c: NodeHandle| #[trigger] m.children.contains(c) ==> b.contains(c)
            &&& forall|q: NodeHandle, c: NodeHandle| #[trigger] b.contains(q) && #[trigger] node(t, q as int).children.contains(c) ==> b.contains(c)
        }),
    decreases t.len() - node(t, y).depth, 1int, 0int,
{
    let m = node(t, y);
    assert(node_ok(t, y, Set::empty()));
    lemma_below_children(t, t0, h, y, m.children.len() as int);
    let bc = below_children(t0, m, m.children.len() as int);
    let b = below(t0, m);
    assert(b == m.children + bc);
    broadcast use vstd::seq_lib::lemma_seq_concat_contains_all_elements;
    assert forall|q: NodeHandle| #[trigger] b.contains(q) implies {
        &&& has_node(t, q as int)
        &&& y < q
        &&& node(t, q as int).depth > m.depth
        &&& node(t, q as int).parent matches Some(p) && (p == y || b.contains(p))
    } by {
        if m.children.contains(q) {
            let i = choose|i: int| 0 <= i < m.children.len() && m.children[i] == q;
            assert(has_node(t, m.children[i] as int));
        } else {
            assert(bc.contains(q));
        }
    }
    assert forall|q: NodeHandle, c: NodeHandle| #[trigger] b.contains(q) && #[trigger] node(t, q as int).children.contains(c) implies b.contains(c) by {
        if m.children.contains(q) {
            let i = choose|i: int| 0 <= i < m.children.len() && m.children[i] == q;
            assert(bc.contains(c));
        } else {
            assert(bc.contains(c));
        }
    }
}

proof fn lemma_below_children(t: TreeV, t0: TreeV, h: int, y: int, k: int)
    requires
        tree_wf(t),
        has_node(t, h),
        has_node(t, y),
        h <= y,
        0 <= k <= node(t, y).children.len(),
        t0.len() == t.len(),
        forall|x: int| 0 <= x < t.len() && x != h ==> #[trigger] t0[x] == t[x],
    ensures
        ({
            let m = node(t, y);
            let bc = below_children(t0, m, k);
            &&& forall|q: NodeHandle| #[trigger] bc.contains(q) ==> {
                &&& has_node(t, q as int)
                &&& y < q
                &&& node(t, q as int).depth > m.depth
                &&& node(t, q as int).parent matches Some(p) && (m.children.take(k).contains(p) || bc.contains(p))
            }
            &&& forall|j: int, c: NodeHandle| 0 <= j < k && #[trigger] node(t, m.children[j] as int).children.contains(c) ==> bc.contains(c)
            &&& forall|q: NodeHandle, c: NodeHandle| #[trigger] bc.contains(q) && #[trigger] node(t, q as int).children.contains(c) ==> bc.contains(c)
        }),
    decreases t.len() - node(t, y).depth, 0int, k,
{
    let m = node(t, y);
    if k == 0 {
        assert(below_children(t0, m, 0) =~= Seq::<NodeHandle>::empty());
        return;
    }
    lemma_below_children(t, t0, h, y, k - 1);
    assert(node_ok(t, y, Set::empty()));
    let c = m.children[k - 1];
    assert(has_node(t, c as int));
    assert(y < c);
    assert(node(t0, c as int) == node(t, c as int));
    assert(node_ok(t, c as int, Set::empty()));
    assert(t0[c as int] == t[c as int]);
    lemma_below(t, t0, h, c as int);
    let prev = below_children(t0, m, k - 1);
    let rest = below(t0, node(t, c as int));
    let bc = below_children(t0, m, k);
    assert(bc == prev + rest);
    assert(m.children.take(k) == m.children.take(k - 1).push(c));
    broadcast use vstd::seq_lib::lemma_seq_concat_contains_all_elements;
    broadcast use vstd::seq_lib::lemma_seq_contains_after_push;
    assert forall|q: NodeHandle| #[trigger] bc.contains(q) implies {
        &&& has_node(t, q as int)
        &&& y < q
        &&& node(t, q as int).depth > m.depth
        &&& node(t, q as int).parent matches Some(p) && (m.children.take(k).contains(p) || bc.contains(p))
    } by {
        if prev.contains(q) {
        } else {
            assert(rest.contains(q));
        }
    }
    assert forall|j: int, cc: NodeHandle| 0 <= j < k && #[trigger] node(t, m.children[j] as int).children.contains(cc) implies bc.contains(cc) by {
        if j < k - 1 {
            assert(prev.contains(cc));
        } else {
            assert(rest.contains(cc));
        }
    }
}

/// Rebuilding below a node of a well-formed tree keeps it well formed.
pub proof fn law_rebuilt_wf(t: TreeV, h: NodeHandle, r: RawNode)
    requires
        tree_wf(t),
        rebuilt(t, h, r).len() <= usize::MAX,
    ensures
        tree_wf(rebuilt(t, h, r)),
{
    if !has_node(t, h as int) {
        return;
    }
    let hi = h as int;
    let n = node(t, hi);
    assert(node_ok(t, hi, Set::empty()));
    let t0 = t.update(hi, None);
    let drop = below(t0, n);
    let t1 = without(t0, drop);
    let kids = kids_of(r, n.depth, t1.len() as int, None);
    let nn = refreshed(NodeV { children: kids, ..n }, r);
    let n1 = NodeV { children: seq![], ..n };
    let t1p = t1.update(hi, Some(n1));
    let g = grow(t1, r, h, n.depth, None);
    let gp = grow(t1p, r, h, n.depth, None);
    assert(rebuilt(t, h, r) == g.update(hi, Some(nn)));
    assert forall|x: int| 0 <= x < t.len() && x != hi implies #[trigger] t0[x] == t[x] by {}
    lemma_below(t, t0, hi, hi);
    broadcast use vstd::seq_lib::lemma_seq_concat_contains_all_elements;
    // the node itself is not dropped
    assert(!drop.contains(h));
    assert(t1[hi] is None);
    assert(t1p.update(hi, None) =~= t1);
    lemma_grow_update(t1p, r, h, n.depth, None, hi, None);
    assert(g == gp.update(hi, None));
    crate::context_tree::tree::lemma_grow_len(t1, r, h, n.depth, None);
    crate::context_tree::tree::lemma_grow_len(t1p, r, h, n.depth, None);
    assert(t1.len() == t.len());
    assert(t1p.len() == t.len());
    assert(g.update(hi, Some(nn)) =~= gp.update(hi, Some(nn)));
    // the tree with the node emptied of children sits well, the node pending
    let pend = Set::<int>::empty().insert(hi);
    assert forall|x: int| #[trigger] has_node(t1p, x) implies node_ok(t1p, x, pend) by {
        if x == hi {
            assert(node(t1p, hi) == n1);
            if let Some(p) = n.parent {
                assert(has_node(t, p as int));
                assert(!drop.contains(p));
                assert(t1p[p as int] == t[p as int]);
            }
        } else {
            assert(t1p[x] == t1[x]);
            assert(!drop.contains(x as NodeHandle));
            assert(t1[x] == t[x]);
            assert(has_node(t, x));
            assert(node_ok(t, x, Set::empty()));
            let nx = node(t, x);
            assert(node(t1p, x) == nx);
            assert forall|i: int| 0 <= i < nx.children.len() implies {
                let c = #[trigger] nx.children[i] as int;
                &&& x < c < t1p.len()
                &&& has_node(t1p, c)
                &&& node(t1p, c).depth == nx.depth + 1
                &&& node(t1p, c).parent == Some(x as NodeHandle)
            } by {
                let c = nx.children[i] as int;
                assert(has_node(t, c));
                if c != hi {
                    if drop.contains(c as NodeHandle) {
                        assert(node(t, c).parent == Some(x as NodeHandle));
                    }
                    assert(t1p[c] == t[c]);
                }
            }
            if let Some(p) = nx.parent {
                assert(has_node(t, p as int));
                assert(node(t, p as int).children.contains(x as NodeHandle));
                if p as int == hi {
                    assert(n.children.contains(x as NodeHandle));
                    assert(drop.contains(x as NodeHandle));
                }
                if drop.contains(p) {
                    assert(drop.contains(x as NodeHandle));
                }
                assert(t1p[p as int] == t[p as int]);
            }
        }
    }
    assert forall|p: int| #[trigger] pend.contains(p) implies p < t1p.len() by {}
    lemma_grow(t1p, r, h, n.depth, None, pend);
    // no placed node but the new children names the node as parent
    assert forall|x: int| #[trigger] has_node(t1p, x) && x != hi implies node(t1p, x).parent != Some(h) by {
        assert(node_ok(t1p, x, pend));
        if node(t1p, x).parent == Some(h) {
            assert(t1p[x] == t1[x]);
            assert(t1[x] is Some);
            assert(!drop.contains(x as NodeHandle));
            assert(t1[x] == t0[x]);
            assert(t0[x] == t[x]);
            assert(has_node(t, x));
            assert(node_ok(t, x, Set::empty()));
            assert(n.children.contains(x as NodeHandle));
            assert(drop.contains(x as NodeHandle));
        }
    }
    let fin = gp.update(hi, Some(nn));
    assert(nn.handle == h && nn.depth == n.depth && nn.parent == n.parent && nn.children == kids);
    assert(gp[hi] == t1p[hi]);
    assert forall|x: int| #[trigger] has_node(fin, x) implies node_ok(fin, x, Set::empty()) by {
        if x == hi {
            assert(node(fin, hi) == nn);
            if let Some(p) = n.parent {
                assert(node_ok(t1p, hi, pend));
                assert(has_node(t1p, p as int));
                assert(gp[p as int] == t1p[p as int]);
            }
            assert forall|i: int| 0 <= i < nn.children.len() implies {
                let c = #[trigger] nn.children[i] as int;
                &&& x < c < fin.len()
                &&& has_node(fin, c)
                &&& node(fin, c).depth == nn.depth + 1
                &&& node(fin, c).parent == Some(x as NodeHandle)
            } by {
                let c = nn.children[i] as int;
                assert(kids[i] == nn.children[i]);
                assert(has_node(gp, c));
                assert(fin[c] == gp[c]);
            }
        } else {
            assert(fin[x] == gp[x]);
            assert(has_node(gp, x));
            assert(node_ok(gp, x, pend));
            let nx = node(gp, x);
            assert forall|i: int| 0 <= i < nx.children.len() implies {
                let c = #[trigger] nx.children[i] as int;
                &&& x < c < fin.len()
                &&& has_node(fin, c)
                &&& node(fin, c).depth == nx.depth + 1
                &&& node(fin, c).parent == Some(x as NodeHandle)
            } by {
                let c = nx.children[i] as int;
                assert(has_node(gp, c));
                if c == hi {
                    assert(node(gp, hi) == n1);
                } else {
                    assert(fin[c] == gp[c]);
                }
            }
            if let Some(p) = nx.parent {
                if p == h {
                    if x < t1p.len() {
                        assert(gp[x] == t1p[x]);
                        assert(has_node(t1p, x));
                    } else {
                        assert(kids.contains(x as NodeHandle));
                        let k = choose|k: int| 0 <= k < kids.len() && kids[k] == x as NodeHandle;
                        assert(node(gp, kids[k] as int).depth == n.depth + 1);
                    }
                } else {
                    assert(has_node(gp, p as int));
                    assert(fin[p as int] == gp[p as int]);
                }
            }
        }
    }
}

/// Replacing a node by one with the same handle, depth, parent and children keeps a
/// tree well formed.
proof fn lemma_same_shape(t: TreeV, h: int, m: NodeV)
    requires
        tree_wf(t),
        has_node(t, h),
        m.handle == node(t, h).handle,
        m.depth == node(t, h).depth,
        m.parent == node(t, h).parent,
        m.children == node(t, h).children,
    ensures
        tree_wf(t.update(h, Some(m))),
{
    let t2 = t.update(h, Some(m));
    assert forall|x: int| #[trigger] has_node(t2, x) implies node_ok(t2, x, Set::empty()) by {
        assert(has_node(t, x));
        assert(node_ok(t, x, Set::empty()));
        let nx = node(t, x);
        assert forall|i: int| 0 <= i < node(t2, x).children.len() implies {
            let c = #[trigger] node(t2, x).children[i] as int;
            &&& x < c < t2.len()
            &&& has_node(t2, c)
            &&& node(t2, c).depth == node(t2, x).depth + 1
            &&& node(t2, c).parent == Some(x as NodeHandle)
        } by {
            assert(node(t2, x).children == nx.children);
            let c = nx.children[i] as int;
            assert(has_node(t, c));
        }
        if let Some(p) = node(t2, x).parent {
            assert(has_node(t, p as int));
        }
    }
}

/// Every update a tree follows keeps it well formed.
pub proof fn law_applied_wf(t: TreeV, u: UpdateV, fresh: Option<RawNode>)
    requires
        tree_wf(t),
        applied(t, u, fresh).len() <= usize::MAX,
    ensures
        tree_wf(applied(t, u, fresh)),
{
    let h = u.handle as int;
    if !has_node(t, h) {
        return;
    }
    let n = node(t, h);
    let v = match u.value {
        Some(v) => v,
        None => seq![],
    };
    match u.kind {
        UpdateKind::Name => lemma_same_shape(t, h, NodeV { name: v, ..n }),
        UpdateKind::Description => lemma_same_shape(t, h, NodeV { description: v, ..n }),
        UpdateKind::State => {
            if let Some(r) = fresh {
                lemma_same_shape(t, h, refreshed(n, r));
            }
        },
        UpdateKind::Text => {
            if let Some(r) = fresh {
                lemma_same_shape(t, h, NodeV { text: r.text@, ..n });
            }
        },
        UpdateKind::Child => {
            if let Some(r) = fresh {
                law_rebuilt_wf(t, u.handle, r);
            }
        },
    }
}

/// In a well-formed tree, the handles below node `h` (as `subtree` gives them) are
/// its descendants: placed nodes deeper than `h`, each the child of `h` or of
/// another of them, holding the children of `h` and of each of them.
pub proof fn law_below_descendants(t: TreeV, h: int)
    requires
        tree_wf(t),
        has_node(t, h),
    ensures
        forall|q: NodeHandle| #[trigger] below(t, node(t, h)).contains(q) ==> {
            &&& has_node(t, q as int)
            &&& node(t, q as int).depth > node(t, h).depth
            &&& node(t, q as int).parent matches Some(p) && (p == h || below(t, node(t, h)).contains(p))
        },
        forall|c: NodeHandle| #[trigger] node(t, h).children.contains(c) ==> below(t, node(t, h)).contains(c),
        forall|q: NodeHandle, c: NodeHandle| #[trigger] below(t, node(t, h)).contains(q) && #[trigger] node(t, q as int).children.contains(c)
            ==> below(t, node(t, h)).contains(c),
{
    lemma_below(t, t, h, h);
}

// ---------------------------------------------------------------------------
// Depth limit and parents of a built tree

/// The deepest level that a depth limit `m` lets a node reach: `m`, or the root's
/// level when `m` is negative.
pub open spec fn depth_bound(m: i32) -> int {
    if m < 0 { 0 } else { m as int }
}

/// Building below the first `i` children of `r` under the limit `m` places no node
/// deeper than the limit.
proof fn lemma_grow_children_depth(t: TreeV, r: RawNode, h: NodeHandle, d: i32, start: int, i: int, m: i32)
    requires
        0 <= start,
        start + i <= t.len(),
        0 <= d < m,
        forall|x: int| start <= x < t.len() && #[trigger] has_node(t, x) ==> node(t, x).depth <= depth_bound(m),
    ensures
        ({
            let g = grow_children(t, r, h, d, start, i, Some(m));
            forall|x: int| start <= x < g.len() && #[trigger] has_node(g, x) ==> node(g, x).depth <= depth_bound(m)
        }),
    decreases r, 0int, i,
{
    if !(i <= 0 || i > r.children@.len() || d == i32::MAX) {
        broadcast use vstd::std_specs::vec::group_vec_axioms;
        assert(decreases_to!(r => r.children));
        assert(decreases_to!(r.children => r.children@));
        assert(decreases_to!(r.children@ => r.children@[i - 1]));
        lemma_grow_children_depth(t, r, h, d, start, i - 1, m);
        crate::context_tree::tree::lemma_grow_children_len(t, r, h, d, start, i - 1, Some(m));
        let t1 = grow_children(t, r, h, d, start, i - 1, Some(m));
        let c = r.children@[i - 1];
        let slot = start + i - 1;
        let t2 = grow(t1, c, slot as NodeHandle, (d + 1) as i32, Some(m));
        lemma_grow_depth(t1, c, slot as NodeHandle, (d + 1) as i32, m);
        crate::context_tree::tree::lemma_grow_len(t1, c, slot as NodeHandle, (d + 1) as i32, Some(m));
        let cn = node_from(c, (d + 1) as i32, slot as NodeHandle, Some(h), kids_of(c, (d + 1) as i32, t1.len() as int, Some(m)));
        let t3 = t2.update(slot, Some(cn));
        assert(grow_children(t, r, h, d, start, i, Some(m)) == t3);
        assert(t2.len() >= t1.len() >= t.len());
        assert forall|x: int| start <= x < t3.len() && #[trigger] has_node(t3, x) implies node(t3, x).depth <= depth_bound(m) by {
            if x != slot {
                assert(t3[x] == t2[x]);
                if x < t1.len() {
                    assert(t2.take(t1.len() as int)[x] == t1[x]);
                    assert(has_node(t1, x));
                } else {
                    assert(has_node(t2, x));
                }
            }
        }
    }
}

/// Building below element `r` at depth `d` under the limit `m`, where `d` is within
/// the limit, places no node deeper than the limit.
proof fn lemma_grow_depth(t: TreeV, r: RawNode, h: NodeHandle, d: i32, m: i32)
    requires
        0 <= d <= depth_bound(m),
    ensures
        ({
            let g = grow(t, r, h, d, Some(m));
            forall|x: int| t.len() <= x < g.len() && #[trigger] has_node(g, x) ==> node(g, x).depth <= depth_bound(m)
        }),
    decreases r, 1int, 0int,
{
    if !stops_at(d, Some(m)) {
        let k = r.children@.len() as int;
        let t1 = t + Seq::new(k as nat, |i: int| None);
        assert forall|x: int| t.len() <= x < t1.len() && #[trigger] has_node(t1, x) implies node(t1, x).depth <= depth_bound(m) by {}
        lemma_grow_children_depth(t1, r, h, d, t.len() as int, k, m);
    }
}

/// With a depth limit `m`, no node of the built tree lies deeper than `m` (nor deeper
/// than the root, when `m` is negative).
pub proof fn law_built_tree_depth_limit(r: RawNode, m: i32)
    ensures
        forall|x: int| #[trigger] has_node(built_tree(r, Some(m)), x) ==> node(built_tree(r, Some(m)), x).depth <= depth_bound(m),
{
    let t0: TreeV = seq![None];
    let g = grow(t0, r, 0, 0, Some(m));
    lemma_grow_depth(t0, r, 0, 0, m);
    crate::context_tree::tree::lemma_grow_len(t0, r, 0, 0, Some(m));
    let t = built_tree(r, Some(m));
    assert forall|x: int| #[trigger] has_node(t, x) implies node(t, x).depth <= depth_bound(m) by {
        if x != 0 {
            assert(t[x] == g[x]);
            assert(has_node(g, x));
        }
    }
}

/// In a built tree the root, handle 0 at depth 0, alone has no parent; every other
/// node is listed among the children of its parent, and of no other node.
pub proof fn law_built_tree_parents(r: RawNode, max_depth: Option<i32>)
    requires
        built_tree(r, max_depth).len() <= usize::MAX,
    ensures
        ({
            let t = built_tree(r, max_depth);
            &&& has_node(t, 0)
            &&& node(t, 0).parent is None
            &&& node(t, 0).depth == 0
            &&& forall|x: int| #[trigger] has_node(t, x) && x != 0 ==> (node(t, x).parent matches Some(p)
                && has_node(t, p as int) && node(t, p as int).children.contains(x as NodeHandle))
            &&& forall|x: int, y: int| has_node(t, x) && has_node(t, y) && #[trigger] node(t, y).children.contains(x as NodeHandle)
                ==> node(t, x).parent == Some(y as NodeHandle)
        }),
{
    let t = built_tree(r, max_depth);
    law_built_tree_wf(r, max_depth);
    let t0: TreeV = seq![None];
    let pend = Set::<int>::empty().insert(0);
    assert forall|x: int| #[trigger] has_node(t0, x) implies node_ok(t0, x, pend) by {}
    let g = grow(t0, r, 0, 0, max_depth);
    crate::context_tree::tree::lemma_grow_len(t0, r, 0, 0, max_depth);
    lemma_grow(t0, r, 0, 0, max_depth, pend);
    assert(has_node(t, 0));
    assert forall|x: int| #[trigger] has_node(t, x) && x != 0 implies (node(t, x).parent matches Some(p)
        && has_node(t, p as int) && node(t, p as int).children.contains(x as NodeHandle)) by {
        assert(t[x] == g[x]);
        assert(has_node(g, x));
        assert(node_ok(t, x, Set::empty()));
    }
    assert forall|x: int, y: int| has_node(t, x) && has_node(t, y) && #[trigger] node(t, y).children.contains(x as NodeHandle)
        implies node(t, x).parent == Some(y as NodeHandle) by {
        assert(node_ok(t, y, Set::empty()));
        let k = choose|k: int| 0 <= k < node(t, y).children.len() && node(t, y).children[k] == x as NodeHandle;
        assert(node(t, node(t, y).children[k] as int).parent == Some(y as NodeHandle));
    }
}

/// Rebuilding below node `h` from its element read anew keeps the node's handle,
/// object, depth and parent, and gives it what the element's info says: its name,
/// description, geometry, child count and index, and the element's text.
pub proof fn law_rebuilt_node_info(t: TreeV, h: NodeHandle, r: RawNode)
    requires
        has_node(t, h as int),
    ensures
        ({
            let old_n = node(t, h as int);
            let m = node(rebuilt(t, h, r), h as int);
            &&& has_node(rebuilt(t, h, r), h as int)
            &&& m.handle == old_n.handle && m.jobject == old_n.jobject && m.depth == old_n.depth && m.parent == old_n.parent
            &&& m.text == r.text@
            &&& (r.info matches Some(i) ==> {
                &&& m.x == i.x && m.y == i.y && m.width == i.width && m.height == i.height
                &&& m.name == i.name@ && m.description == i.description@
                &&& m.children_count == i.children_count && m.index_in_parent == i.index_in_parent
            })
        }),
{
    let n = node(t, h as int);
    let t0 = t.update(h as int, None);
    let t1 = without(t0, below(t0, n));
    crate::context_tree::tree::lemma_grow_len(t1, r, h, n.depth, None);
    let kids = kids_of(r, n.depth, t1.len() as int, None);
    crate::context_tree::node::law_refreshed_copies_info(NodeV { children: kids, ..n }, r);
}

/// The root of a built tree, handle 0 at depth 0 with no parent, holds what the
/// root element's info says: its name, description, geometry, child count and
/// index, and the element's text.
pub proof fn law_built_root_info(r: RawNode, max_depth: Option<i32>)
    ensures
        ({
            let m = node(built_tree(r, max_depth), 0);
            &&& has_node(built_tree(r, max_depth), 0)
            &&& m.handle == 0 && m.depth == 0 && m.parent is None && m.jobject == r.jobject && m.text == r.text@
            &&& (r.info matches Some(i) ==> {
                &&& m.x == i.x && m.y == i.y && m.width == i.width && m.height == i.height
                &&& m.name == i.name@ && m.description == i.description@
                &&& m.children_count == i.children_count && m.index_in_parent == i.index_in_parent
            })
        }),
{
    let t0: TreeV = seq![None];
    crate::context_tree::tree::lemma_grow_len(t0, r, 0, 0, max_depth);
    crate::context_tree::node::law_node_from_element(r, 0, 0, None, kids_of(r, 0, 1, max_depth));
}

} // verus!
