use vstd::prelude::*;

use crate::context_tree::node::{node_from, refreshed, view_node, ContextNode, NodeHandle, NodeV, RawNode, ROOT_HANDLE};
use crate::text::str_to_string;

verus! {

/// The accessibility tree of one window.
///
/// Slot `h` of `nodes` holds the node whose handle is `h`, or `None` once that node
/// has been dropped; handles are handed out in increasing order and never reused.
#[derive(Debug)]
pub struct ContextTree {
    pub nodes: Vec<Option<ContextNode>>,
    pub vm_id: i64,
}

pub type TreeV = Seq<Option<NodeV>>;

pub open spec fn view_tree(t: ContextTree) -> TreeV {
    t.nodes@.map_values(|o: Option<ContextNode>| match o {
        Some(n) => Some(view_node(n)),
        None => None,
    })
}

impl View for ContextTree {
    type V = TreeV;

    open spec fn view(&self) -> TreeV {
        view_tree(*self)
    }
}

/// Whether `h` names a node of the tree.
pub open spec fn has_node(t: TreeV, h: int) -> bool {
    0 <= h < t.len() && t[h] is Some
}

pub open spec fn node(t: TreeV, h: int) -> NodeV {
    t[h]->0
}

/// Node `x` sits well in `t`, the slots `pending` holding nodes yet to be placed: it
/// holds its own handle and is no deeper than it; its parent has a smaller handle
/// and is pending, or is placed one level up and lists `x` among its children; and
/// its children are placed one level below it, with larger handles, naming it as
/// their parent.
pub open spec fn node_ok(t: TreeV, x: int, pending: Set<int>) -> bool {
    let n = node(t, x);
    &&& n.handle == x
    &&& 0 <= n.depth <= x < t.len()
    &&& (n.parent matches Some(p) ==> p < x && (pending.contains(p as int) || (has_node(t, p as int)
        && node(t, p as int).depth + 1 == n.depth && node(t, p as int).children.contains(x as NodeHandle))))
    &&& forall|i: int| 0 <= i < n.children.len() ==> {
        let c = #[trigger] n.children[i] as int;
        &&& x < c < t.len()
        &&& has_node(t, c)
        &&& node(t, c).depth == n.depth + 1
        &&& node(t, c).parent == Some(x as NodeHandle)
    }
}

/// Every node of `t` sits well, the slots `pending` holding nodes yet to be placed.
pub open spec fn wf_except(t: TreeV, pending: Set<int>) -> bool {
    forall|x: int| #[trigger] has_node(t, x) ==> node_ok(t, x, pending)
}

/// The tree is well formed: each node sits in the slot of its handle, below its
/// parent (one level deeper, listed among the parent's children) and above its
/// children (one level shallower, named as their parent).
pub open spec fn tree_wf(t: TreeV) -> bool {
    wf_except(t, Set::empty())
}

/// The handles below node `n`: its children, then the handles below each child in
/// turn (a child is followed only when it lies deeper than `n` inside the tree).
pub open spec fn below(t: TreeV, n: NodeV) -> Seq<NodeHandle>
    decreases t.len() - n.depth, 1int,
{
    n.children + below_children(t, n, n.children.len() as int)
}

/// The handles below the first `k` children of `n`, child after child.
pub open spec fn below_children(t: TreeV, n: NodeV, k: int) -> Seq<NodeHandle>
    decreases t.len() - n.depth, 0int, k,
{
    if k <= 0 || k > n.children.len() {
        seq![]
    } else {
        let c = n.children[k - 1] as int;
        let rest = if has_node(t, c) && n.depth < node(t, c).depth < t.len() {
            below(t, node(t, c))
        } else {
            seq![]
        };
        below_children(t, n, k - 1) + rest
    }
}

// ---------------------------------------------------------------------------
// Building a tree from the elements read

/// Whether the nodes at depth `d` get no children: the depth limit is reached (or
/// the largest depth an `i32` holds).
pub open spec fn stops_at(d: i32, max_depth: Option<i32>) -> bool {
    d == i32::MAX || (max_depth matches Some(m) && d >= m)
}

/// The handles `start`, `start + 1`, ..., `start + k - 1`.
pub open spec fn handle_block(start: int, k: int) -> Seq<NodeHandle> {
    Seq::new(k as nat, |i: int| (start + i) as NodeHandle)
}

/// The children that element `r` gets at depth `d` when the tree has `len` slots:
/// the next free handles, one per element read below it.
pub open spec fn kids_of(r: RawNode, d: i32, len: int, max_depth: Option<i32>) -> Seq<NodeHandle> {
    if stops_at(d, max_depth) {
        seq![]
    } else {
        handle_block(len, r.children@.len() as int)
    }
}

/// The slots of `t` once everything below element `r` (node `h` at depth `d`) is
/// built: its children take the next free slots, then the nodes below each child
/// follow, child after child.
pub open spec fn grow(t: TreeV, r: RawNode, h: NodeHandle, d: i32, max_depth: Option<i32>) -> TreeV
    decreases r, 1int, 0int,
{
    if stops_at(d, max_depth) {
        t
    } else {
        let k = r.children@.len() as int;
        grow_children(t + Seq::new(k as nat, |i: int| None), r, h, d, t.len() as int, k, max_depth)
    }
}

/// The slots of `t` once the first `i` children of `r` (in the slots from `start` on)
/// are built with everything below them.
pub open spec fn grow_children(t: TreeV, r: RawNode, h: NodeHandle, d: i32, start: int, i: int, max_depth: Option<i32>) -> TreeV
    decreases r, 0int, i,
{
    if i <= 0 || i > r.children@.len() || d == i32::MAX {
        t
    } else {
        let t1 = grow_children(t, r, h, d, start, i - 1, max_depth);
        proof {
            broadcast use vstd::std_specs::vec::group_vec_axioms;
            assert(decreases_to!(r => r.children));
            assert(decreases_to!(r.children => r.children@));
            assert(decreases_to!(r.children@ => r.children@[i - 1]));
        }
        let c = r.children@[i - 1];
        let slot = start + i - 1;
        let t2 = grow(t1, c, slot as NodeHandle, (d + 1) as i32, max_depth);
        t2.update(slot, Some(node_from(c, (d + 1) as i32, slot as NodeHandle, Some(h), kids_of(c, (d + 1) as i32, t1.len() as int, max_depth))))
    }
}

/// The tree built from the root element `r`: the root takes handle 0.
pub open spec fn built_tree(r: RawNode, max_depth: Option<i32>) -> TreeV {
    let t0 = seq![None];
    grow(t0, r, ROOT_HANDLE, 0, max_depth).update(0, Some(node_from(r, 0, ROOT_HANDLE, None, kids_of(r, 0, 1, max_depth))))
}

/// The slots of `t` with those of the handles `hs` emptied.
pub open spec fn without(t: TreeV, hs: Seq<NodeHandle>) -> TreeV {
    Seq::new(t.len(), |i: int| if hs.contains(i as NodeHandle) { None } else { t[i] })
}

/// The tree once node `h` is taken out, the nodes below it dropped and rebuilt from
/// `r`, the element of `h` read anew with everything below it, and `h` put back:
/// `h` keeps its handle, depth and parent, takes the info of `r`, and its new
/// children take the next free handles. Without a node `h` the tree stays as it is.
pub open spec fn rebuilt(t: TreeV, h: NodeHandle, r: RawNode) -> TreeV {
    if has_node(t, h as int) {
        let n = node(t, h as int);
        let t0 = t.update(h as int, None);
        let t1 = without(t0, below(t0, n));
        let kids = kids_of(r, n.depth, t1.len() as int, None);
        grow(t1, r, h, n.depth, None).update(h as int, Some(refreshed(NodeV { children: kids, ..n }, r)))
    } else {
        t
    }
}

pub(crate) proof fn lemma_grow_len(t: TreeV, r: RawNode, h: NodeHandle, d: i32, max_depth: Option<i32>)
    ensures
        grow(t, r, h, d, max_depth).len() >= t.len(),
        grow(t, r, h, d, max_depth).take(t.len() as int) == t,
    decreases r, 1int, 0int,
{
    if !stops_at(d, max_depth) {
        let k = r.children@.len() as int;
        let t1 = t + Seq::new(k as nat, |i: int| None);
        lemma_grow_children_len(t1, r, h, d, t.len() as int, k, max_depth);
        assert(t1.take(t.len() as int) =~= t);
        assert(grow(t, r, h, d, max_depth).take(t.len() as int) =~= t1.take(t.len() as int));
    } else {
        assert(t.take(t.len() as int) =~= t);
    }
}

pub(crate) proof fn lemma_grow_children_len(t: TreeV, r: RawNode, h: NodeHandle, d: i32, start: int, i: int, max_depth: Option<i32>)
    requires
        0 <= start,
        start + i <= t.len(),
    ensures
        grow_children(t, r, h, d, start, i, max_depth).len() >= t.len(),
        grow_children(t, r, h, d, start, i, max_depth).take(start) == t.take(start),
    decreases r, 0int, i,
{
    if !(i <= 0 || i > r.children@.len() || d == i32::MAX) {
        lemma_grow_children_len(t, r, h, d, start, i - 1, max_depth);
        broadcast use vstd::std_specs::vec::group_vec_axioms;
        assert(decreases_to!(r => r.children));
        assert(decreases_to!(r.children => r.children@));
        assert(decreases_to!(r.children@ => r.children@[i - 1]));
        let t1 = grow_children(t, r, h, d, start, i - 1, max_depth);
        let c = r.children@[i - 1];
        let slot = start + i - 1;
        let t2 = grow(t1, c, slot as NodeHandle, (d + 1) as i32, max_depth);
        lemma_grow_len(t1, c, slot as NodeHandle, (d + 1) as i32, max_depth);
        assert(t2.take(start) =~= t1.take(start)) by {
            assert(t2.take(t1.len() as int) == t1);
            assert forall|j: int| 0 <= j < start implies t2[j] == t1[j] by {
                assert(t2.take(t1.len() as int)[j] == t1[j]);
            }
        }
        let t3 = t2.update(slot, Some(node_from(c, (d + 1) as i32, slot as NodeHandle, Some(h), kids_of(c, (d + 1) as i32, t1.len() as int, max_depth))));
        assert(t3.take(start) =~= t2.take(start));
        assert(grow_children(t, r, h, d, start, i, max_depth) == t3);
    }
}

impl ContextTree {
    /// The node with handle `h`, if any.
    pub fn get(&self, h: NodeHandle) -> (r: Option<&ContextNode>)
        ensures
            match r {
                Some(n) => has_node(self@, h as int) && view_node(*n) == node(self@, h as int),
                None => !has_node(self@, h as int),
            },
    {
        if h >= self.nodes.len() as u64 {
            return None;
        }
        let i = h as usize;
        match &self.nodes[i] {
            Some(n) => Some(n),
            None => None,
        }
    }

    /// The root node, or the error `Root node missing`.
    pub fn root(&self) -> (r: Result<&ContextNode, String>)
        ensures
            match r {
                Ok(n) => has_node(self@, ROOT_HANDLE as int) && view_node(*n) == node(self@, ROOT_HANDLE as int),
                Err(e) => !has_node(self@, ROOT_HANDLE as int) && e@ == "Root node missing"@,
            },
    {
        match self.get(ROOT_HANDLE) {
            Some(n) => Ok(n),
            None => Err(str_to_string("Root node missing")),
        }
    }

    /// Takes the root node out of the tree, or gives the error `Root node missing`.
    pub fn into_root(self) -> (r: Result<ContextNode, String>)
        ensures
            match r {
                Ok(n) => has_node(self@, ROOT_HANDLE as int) && view_node(n) == node(self@, ROOT_HANDLE as int),
                Err(e) => !has_node(self@, ROOT_HANDLE as int) && e@ == "Root node missing"@,
            },
    {
        let mut nodes = self.nodes;
        if nodes.len() == 0 {
            return Err(str_to_string("Root node missing"));
        }
        let ghost before = nodes@;
        match nodes.swap_remove(0) {
            Some(n) => Ok(n),
            None => Err(str_to_string("Root node missing")),
        }
    }

    /// Whether node `h` lies strictly between depth `above` and the number of slots.
    fn deeper_than(&self, h: NodeHandle, above: i32) -> (r: bool)
        ensures
            r == (has_node(self@, h as int) && above < node(self@, h as int).depth < self@.len()),
    {
        match self.get(h) {
            Some(n) => if n.depth < 0 {
                above < n.depth
            } else {
                above < n.depth && (n.depth as usize) < self.nodes.len()
            },
            None => false,
        }
    }

    /// The handles below `node`: its children, then the handles below each child in
    /// turn.
    pub fn subtree(&self, node: &ContextNode) -> (r: Vec<NodeHandle>)
        ensures
            r@ == below(self@, view_node(*node)),
        decreases self@.len() - node.depth,
    {
        let ghost t = self@;
        let ghost nv = view_node(*node);
        let mut out: Vec<NodeHandle> = Vec::new();
        let k = node.children.len();
        let mut i: usize = 0;
        while i < k
            invariant
                k == node.children@.len(),
                0 <= i <= k,
                out@ == node.children@.take(i as int),
            decreases k - i,
        {
            out.push(node.children[i]);
            assert(node.children@.take(i + 1) =~= node.children@.take(i as int).push(node.children@[i as int]));
            i += 1;
        }
        assert(node.children@.take(k as int) =~= node.children@);
        let mut i: usize = 0;
        while i < k
            invariant
                t == self@,
                nv == view_node(*node),
                k == node.children@.len(),
                0 <= i <= k,
                out@ == nv.children + below_children(t, nv, i as int),
            decreases k - i,
        {
            let c = node.children[i];
            if self.deeper_than(c, node.depth) {
                let child = self.get(c).unwrap();
                let mut more = self.subtree(child);
                out.append(&mut more);
            }
            assert(out@ =~= nv.children + below_children(t, nv, i + 1));
            i += 1;
        }
        out
    }
}

impl ContextTree {
    /// Builds the tree of a window from its root element, read with everything
    /// below it: the root takes handle 0, the children of each node take the next
    /// free handles, then the nodes below each child follow in turn. No node gets
    /// children at `max_depth` or deeper.
    pub fn from_root(root: &RawNode, vm_id: i64, max_depth: Option<i32>) -> (tree: ContextTree)
        ensures
            tree@ == built_tree(*root, max_depth),
            tree.vm_id == vm_id,
            tree_wf(tree@),
    {
        let mut tree = ContextTree { nodes: Vec::new(), vm_id };
        tree.nodes.push(None);
        assert(tree@ =~= seq![None]);
        let kids = tree.grow_below(root, ROOT_HANDLE, 0, max_depth);
        proof {
            lemma_grow_len(seq![None], *root, ROOT_HANDLE, 0, max_depth);
        }
        let node = ContextNode::from_raw(root, 0, ROOT_HANDLE, None, kids);
        tree.nodes.set(0, Some(node));
        assert(tree@ =~= built_tree(*root, max_depth));
        proof {
            broadcast use vstd::std_specs::vec::group_vec_axioms;
            assert(tree.nodes.len() == tree@.len());
            crate::context_tree::shape::law_built_tree_wf(*root, max_depth);
        }
        tree
    }

    fn stops(d: i32, max_depth: Option<i32>) -> (r: bool)
        ensures
            r == stops_at(d, max_depth),
    {
        d == i32::MAX || match max_depth {
            Some(m) => d >= m,
            None => false,
        }
    }

    /// Builds everything below element `r`, which is node `h` at depth `d`, and
    /// gives the handles of its children.
    fn grow_below(&mut self, r: &RawNode, h: NodeHandle, d: i32, max_depth: Option<i32>) -> (kids: Vec<NodeHandle>)
        ensures
            final(self)@ == grow(old(self)@, *r, h, d, max_depth),
            kids@ == kids_of(*r, d, old(self)@.len() as int, max_depth),
            final(self).vm_id == old(self).vm_id,
        decreases *r,
    {
        let ghost t0 = self@;
        if Self::stops(d, max_depth) {
            return Vec::new();
        }
        let start = self.nodes.len();
        let k = r.children.len();
        let mut i: usize = 0;
        while i < k
            invariant
                0 <= i <= k,
                k == r.children@.len(),
                self.vm_id == old(self).vm_id,
                self@ == t0 + Seq::new(i as nat, |j: int| None::<NodeV>),
            decreases k - i,
        {
            let ghost before = self.nodes@;
            let ghost view_before = self@;
            self.nodes.push(None);
            assert(self.nodes@ == before.push(None));
            assert(self@ =~= view_before.push(None));
            assert(self@ =~= t0 + Seq::new((i + 1) as nat, |j: int| None::<NodeV>));
            i += 1;
        }
        let ghost t1 = self@;
        assert(start == t0.len());
        assert(t1.len() == start + k);
        let mut kids: Vec<NodeHandle> = Vec::new();
        let mut i: usize = 0;
        while i < k
            invariant
                0 <= i <= k,
                k == r.children@.len(),
                start == t0.len(),
                t1.len() == start + k,
                d < i32::MAX,
                self.vm_id == old(self).vm_id,
                self@ == grow_children(t1, *r, h, d, start as int, i as int, max_depth),
                kids@ == handle_block(start as int, i as int),
            decreases k - i,
        {
            proof {
                broadcast use vstd::std_specs::vec::group_vec_axioms;
                assert(decreases_to!(*r => r.children));
                assert(decreases_to!(r.children => r.children@));
                assert(decreases_to!(r.children@ => r.children@[i as int]));
                lemma_grow_children_len(t1, *r, h, d, start as int, i as int, max_depth);
            }
            let c = &r.children[i];
            let ghost tb = self@;
            assert(self.nodes@.len() == self@.len());
            assert(self@.len() >= t1.len());
            let cur_len = self.nodes.len();
            assert(start + i < cur_len);
            let slot = (start + i) as NodeHandle;
            let ck = self.grow_below(c, slot, d + 1, max_depth);
            proof {
                lemma_grow_len(tb, *c, slot, (d + 1) as i32, max_depth);
            }
            let cn = ContextNode::from_raw(c, d + 1, slot, Some(h), ck);
            assert(self.nodes@.len() == self@.len());
            let ghost nodes_before = self.nodes@;
            self.nodes.set(start + i, Some(cn));
            assert(self.nodes@ == nodes_before.update(start + i, Some(cn)));
            kids.push(slot);
            assert(kids@ =~= handle_block(start as int, i + 1));
            assert(self@ =~= grow_children(t1, *r, h, d, start as int, i + 1, max_depth));
            i += 1;
        }
        kids
    }

    /// Drops the nodes below node `h` and builds them anew from `r`, its element read
    /// again with everything below it; `h` itself takes the info of `r`.
    pub fn rebuild_subtree(&mut self, h: NodeHandle, r: &RawNode)
        ensures
            final(self)@ == rebuilt(old(self)@, h, *r),
            final(self).vm_id == old(self).vm_id,
            tree_wf(old(self)@) ==> tree_wf(final(self)@),
    {
        let ghost t = self@;
        if h >= self.nodes.len() as u64 {
            return;
        }
        let hu = h as usize;
        let mut slot: Option<ContextNode> = None;
        std::mem::swap(&mut slot, &mut self.nodes[hu]);
        let mut n = match slot {
            Some(n) => n,
            None => {
                assert(self@ =~= t);
                return;
            },
        };
        let ghost n0 = node(t, h as int);
        let ghost t0 = t.update(h as int, None);
        assert(view_node(n) == n0);
        assert(self@ =~= t0);
        let drop = self.subtree(&n);
        let mut i: usize = 0;
        assert(without(t0, drop@.take(0)) =~= t0);
        while i < drop.len()
            invariant
                0 <= i <= drop@.len(),
                drop@ == below(t0, n0),
                t0.len() == t.len(),
                self.vm_id == old(self).vm_id,
                self.nodes@.len() == t.len(),
                self@ == without(t0, drop@.take(i as int)),
            decreases drop.len() - i,
        {
            let dh = drop[i];
            let ghost before = self@;
            let ghost nodes_before = self.nodes@;
            if dh < self.nodes.len() as u64 {
                self.nodes.set(dh as usize, None);
                assert(self.nodes@ == nodes_before.update(dh as int, None));
            }
            assert(drop@.take(i + 1) =~= drop@.take(i as int).push(dh));
            assert forall|j: int| 0 <= j < t.len() implies #[trigger] self@[j] == without(t0, drop@.take(i + 1))[j] by {
                vstd::seq_lib::lemma_seq_contains_after_push(drop@.take(i as int), dh, j as NodeHandle);
                assert(before[j] == without(t0, drop@.take(i as int))[j]);
                if j == dh as int {
                    assert(self.nodes@[j] is None);
                } else {
                    assert(self.nodes@[j] == nodes_before[j]);
                }
            }
            assert(self@ =~= without(t0, drop@.take(i + 1)));
            i += 1;
        }
        assert(drop@.take(i as int) =~= drop@);
        let ghost t1 = self@;
        n.children = Vec::new();
        n.refresh_info(r);
        let kids = self.grow_below(r, h, n.depth, None);
        proof { lemma_grow_len(t1, *r, h, n0.depth, None); }
        n.children = kids;
        assert(n@ == refreshed(NodeV { children: kids@, ..n0 }, *r));
        let ghost nodes_before = self.nodes@;
        self.nodes.set(hu, Some(n));
        assert(self.nodes@ == nodes_before.update(hu as int, Some(n)));
        assert(self@ =~= rebuilt(t, h, *r));
        proof {
            broadcast use vstd::std_specs::vec::group_vec_axioms;
            assert(self.nodes.len() == self@.len());
            if tree_wf(t) {
                crate::context_tree::shape::law_rebuilt_wf(t, h, *r);
            }
        }
    }
}

} // verus!
