//! Keeping a tree up to date with the changes the Java Access Bridge reports.
use vstd::prelude::*;

use crate::context_tree::node::{view_node, NodeHandle, NodeV, RawNode};
use crate::context_tree::tree::{has_node, node, rebuilt, tree_wf, ContextTree, TreeV};

verus! {

/// What changed in an element, with the old and new values where the bridge gives
/// them (objects by their ids).
#[derive(Debug)]
pub enum Change {
    Name { old: String, new: String },
    Description { old: String, new: String },
    State { old: String, new: String },
    Text,
    Value { old: String, new: String },
    VisibleData,
    Child { old: i64, new: i64 },
    ActiveDescendent { old: i64, new: i64 },
}

/// A change reported by the bridge: the virtual machine it comes from, the node of
/// the tree that its source element is (if it is one), and what changed.
#[derive(Debug)]
pub struct ChangeEvent {
    pub vm_id: i64,
    pub source: Option<NodeHandle>,
    pub change: Change,
}

/// The kinds of change a tree follows.
#[derive(Debug, Clone, Copy, PartialEq, Eq, Structural)]
pub enum UpdateKind {
    Name,
    Description,
    State,
    Text,
    Child,
}

/// One update to make to a tree: what changed in which node, with the new value of
/// a name or description.
#[derive(Debug)]
pub struct TreeUpdate {
    pub kind: UpdateKind,
    pub handle: NodeHandle,
    pub value: Option<String>,
}

pub struct UpdateV {
    pub kind: UpdateKind,
    pub handle: NodeHandle,
    pub value: Option<Seq<char>>,
}

pub open spec fn view_update(u: TreeUpdate) -> UpdateV {
    UpdateV {
        kind: u.kind,
        handle: u.handle,
        value: match u.value {
            Some(v) => Some(v@),
            None => None,
        },
    }
}

/// The update an event asks of a tree of virtual machine `vm_id`: none for another
/// machine, for a source outside the tree, or for a kind of change the tree does
/// not follow.
pub open spec fn update_of(vm_id: i64, e: ChangeEvent) -> Option<UpdateV> {
    if e.vm_id != vm_id || e.source is None {
        None
    } else {
        let h = e.source->0;
        match e.change {
            Change::Name { new, .. } => Some(UpdateV { kind: UpdateKind::Name, handle: h, value: Some(new@) }),
            Change::Description { new, .. } => Some(UpdateV { kind: UpdateKind::Description, handle: h, value: Some(new@) }),
            Change::State { .. } => Some(UpdateV { kind: UpdateKind::State, handle: h, value: None }),
            Change::Text => Some(UpdateV { kind: UpdateKind::Text, handle: h, value: None }),
            Change::Child { .. } => Some(UpdateV { kind: UpdateKind::Child, handle: h, value: None }),
            _ => None,
        }
    }
}

/// The updates the first `k` events ask for, in order.
pub open spec fn updates_of(vm_id: i64, es: Seq<ChangeEvent>, k: int) -> Seq<UpdateV>
    decreases k,
{
    if k <= 0 || k > es.len() {
        seq![]
    } else {
        match update_of(vm_id, es[k - 1]) {
            Some(u) => updates_of(vm_id, es, k - 1).push(u),
            None => updates_of(vm_id, es, k - 1),
        }
    }
}

pub open spec fn same_target(a: UpdateV, b: UpdateV) -> bool {
    a.kind == b.kind && a.handle == b.handle
}

/// A later update of `us` has the same kind and node as update `i`.
pub open spec fn superseded(us: Seq<UpdateV>, i: int) -> bool {
    exists|j: int| i < j < us.len() && same_target(#[trigger] us[j], us[i])
}

/// The first `k` updates of `us` that no later update supersedes, in order.
pub open spec fn latest_below(us: Seq<UpdateV>, k: int) -> Seq<UpdateV>
    decreases k,
{
    if k <= 0 {
        seq![]
    } else if superseded(us, k - 1) {
        latest_below(us, k - 1)
    } else {
        latest_below(us, k - 1).push(us[k - 1])
    }
}

/// The updates of `us` that no later update supersedes, in order: for each kind of
/// change of each node, the last one.
pub open spec fn latest(us: Seq<UpdateV>) -> Seq<UpdateV> {
    latest_below(us, us.len() as int)
}

/// The updates that a batch of events asks of a tree of virtual machine `vm_id`.
pub open spec fn planned(vm_id: i64, es: Seq<ChangeEvent>) -> Seq<UpdateV> {
    latest(updates_of(vm_id, es, es.len() as int))
}

fn update_for(vm_id: i64, e: &ChangeEvent) -> (r: Option<TreeUpdate>)
    ensures
        match r {
            Some(u) => update_of(vm_id, *e) == Some(view_update(u)),
            None => update_of(vm_id, *e) is None,
        },
{
    if e.vm_id != vm_id {
        return None;
    }
    let h = match e.source {
        Some(h) => h,
        None => { return None; },
    };
    match &e.change {
        Change::Name { new, .. } => Some(TreeUpdate { kind: UpdateKind::Name, handle: h, value: Some(new.clone()) }),
        Change::Description { new, .. } => Some(TreeUpdate { kind: UpdateKind::Description, handle: h, value: Some(new.clone()) }),
        Change::State { .. } => Some(TreeUpdate { kind: UpdateKind::State, handle: h, value: None }),
        Change::Text => Some(TreeUpdate { kind: UpdateKind::Text, handle: h, value: None }),
        Change::Child { .. } => Some(TreeUpdate { kind: UpdateKind::Child, handle: h, value: None }),
        _ => None,
    }
}

/// The updates a batch of events asks of a tree of virtual machine `vm_id`: events of
/// other machines, of elements outside the tree and of changes the tree does not
/// follow are left out; of the rest, only the last event of each kind for each node
/// counts, and the updates come in the order of those last events.
pub fn plan_updates(vm_id: i64, events: &Vec<ChangeEvent>) -> (r: Vec<TreeUpdate>)
    ensures
        r@.map_values(|u: TreeUpdate| view_update(u)) == planned(vm_id, events@),
{
    let ghost es = events@;
    let mut accepted: Vec<TreeUpdate> = Vec::new();
    let mut i: usize = 0;
    while i < events.len()
        invariant
            es == events@,
            0 <= i <= es.len(),
            accepted@.map_values(|u: TreeUpdate| view_update(u)) == updates_of(vm_id, es, i as int),
        decreases events.len() - i,
    {
        let ghost before = accepted@;
        match update_for(vm_id, &events[i]) {
            Some(u) => {
                accepted.push(u);
                assert(accepted@.map_values(|u: TreeUpdate| view_update(u)) =~= before.map_values(|u: TreeUpdate| view_update(u)).push(view_update(u)));
            },
            None => {},
        }
        i += 1;
    }
    let ghost us = updates_of(vm_id, es, es.len() as int);
    assert(accepted@.map_values(|u: TreeUpdate| view_update(u)) == us);
    let n = accepted.len();
    let mut out: Vec<TreeUpdate> = Vec::new();
    let mut k: usize = 0;
    while k < n
        invariant
            n == accepted@.len(),
            us == accepted@.map_values(|u: TreeUpdate| view_update(u)),
            0 <= k <= n,
            out@.map_values(|u: TreeUpdate| view_update(u)) == latest_below(us, k as int),
        decreases n - k,
    {
        let mut later = false;
        let mut j = k + 1;
        while j < n
            invariant
                n == accepted@.len(),
                us == accepted@.map_values(|u: TreeUpdate| view_update(u)),
                k < n,
                k + 1 <= j <= n,
                later == exists|m: int| k < m < j && same_target(#[trigger] us[m], us[k as int]),
            decreases n - j,
        {
            if accepted[j].kind == accepted[k].kind && accepted[j].handle == accepted[k].handle {
                assert(same_target(us[j as int], us[k as int]));
                later = true;
            } else {
                assert(!same_target(us[j as int], us[k as int]));
            }
            j += 1;
        }
        let ghost before = out@;
        if !later {
            let u = TreeUpdate {
                kind: accepted[k].kind,
                handle: accepted[k].handle,
                value: match &accepted[k].value {
                    Some(v) => Some(v.clone()),
                    None => None,
                },
            };
            assert(view_update(u) == us[k as int]);
            out.push(u);
            assert(out@.map_values(|u: TreeUpdate| view_update(u)) =~= before.map_values(|u: TreeUpdate| view_update(u)).push(us[k as int]));
        }
        k += 1;
    }
    out
}

/// Whether making update `u` needs its node read anew from the application (a
/// change of state, of text or of children).
pub fn needs_read(u: &TreeUpdate) -> (r: bool)
    ensures
        r == (u.kind == UpdateKind::State || u.kind == UpdateKind::Text || u.kind == UpdateKind::Child),
{
    match u.kind {
        UpdateKind::State | UpdateKind::Text | UpdateKind::Child => true,
        _ => false,
    }
}

/// The tree after update `u`, with `fresh` the node's element read anew (where the
/// update needs it): a name or description takes the new value (empty without
/// one); a change of state brings the node up to date; a change of text takes the
/// new text; a change of children rebuilds what lies below the node. An update of a
/// node the tree does not have, or one that needs a read and has none, changes
/// nothing.
pub open spec fn applied(t: TreeV, u: UpdateV, fresh: Option<RawNode>) -> TreeV {
    let h = u.handle as int;
    if !has_node(t, h) {
        t
    } else {
        let n = node(t, h);
        let v = match u.value {
            Some(v) => v,
            None => seq![],
        };
        match u.kind {
            UpdateKind::Name => t.update(h, Some(NodeV { name: v, ..n })),
            UpdateKind::Description => t.update(h, Some(NodeV { description: v, ..n })),
            UpdateKind::State => match fresh {
                Some(r) => t.update(h, Some(crate::context_tree::node::refreshed(n, r))),
                None => t,
            },
            UpdateKind::Text => match fresh {
                Some(r) => t.update(h, Some(NodeV { text: r.text@, ..n })),
                None => t,
            },
            UpdateKind::Child => match fresh {
                Some(r) => rebuilt(t, u.handle, r),
                None => t,
            },
        }
    }
}

impl ContextTree {
    /// Makes update `u`, with `fresh` the node's element read anew where the update
    /// needs it.
    pub fn apply_update(&mut self, u: &TreeUpdate, fresh: Option<&RawNode>)
        ensures
            final(self)@ == applied(old(self)@, view_update(*u), match fresh {
                Some(r) => Some(*r),
                None => None,
            }),
            final(self).vm_id == old(self).vm_id,
            tree_wf(old(self)@) ==> tree_wf(final(self)@),
    {
        let ghost t = self@;
        if u.handle >= self.nodes.len() as u64 {
            return;
        }
        let hu = u.handle as usize;
        if self.nodes[hu].is_none() {
            return;
        }
        if u.kind == UpdateKind::Child {
            match fresh {
                Some(r) => self.rebuild_subtree(u.handle, r),
                None => {},
            }
            return;
        }
        if (u.kind == UpdateKind::State || u.kind == UpdateKind::Text) && fresh.is_none() {
            return;
        }
        let mut slot: Option<crate::context_tree::node::ContextNode> = None;
        std::mem::swap(&mut slot, &mut self.nodes[hu]);
        let mut n = slot.unwrap();
        assert(view_node(n) == node(t, hu as int));
        match u.kind {
            UpdateKind::Name => {
                n.name = match &u.value {
                    Some(v) => v.clone(),
                    None => String::new(),
                };
            },
            UpdateKind::Description => {
                n.description = match &u.value {
                    Some(v) => v.clone(),
                    None => String::new(),
                };
            },
            UpdateKind::State => {
                n.refresh_info(fresh.unwrap());
            },
            _ => {
                n.text = fresh.unwrap().text.clone();
            },
        }
        let ghost nodes_before = self.nodes@;
        self.nodes.set(hu, Some(n));
        assert(self.nodes@ == nodes_before.update(hu as int, Some(n)));
        assert(self@ =~= applied(t, view_update(*u), match fresh {
            Some(r) => Some(*r),
            None => None,
        }));
        proof {
            broadcast use vstd::std_specs::vec::group_vec_axioms;
            assert(self.nodes.len() == self@.len());
            if tree_wf(t) {
                crate::context_tree::shape::law_applied_wf(t, view_update(*u), match fresh {
                    Some(r) => Some(*r),
                    None => None,
                });
            }
        }
    }
}

// ---------------------------------------------------------------------------
// Laws of the plan

/// Every update kept among the first `k` is one of them that nothing later supersedes.
proof fn lemma_latest_members(us: Seq<UpdateV>, k: int)
    requires
        0 <= k <= us.len(),
    ensures
        forall|p: int| 0 <= p < latest_below(us, k).len() ==> exists|i: int|
            0 <= i < k && #[trigger] latest_below(us, k)[p] == us[i] && !superseded(us, i),
    decreases k,
{
    if k > 0 {
        lemma_latest_members(us, k - 1);
        let prev = latest_below(us, k - 1);
        assert forall|p: int| 0 <= p < latest_below(us, k).len() implies exists|i: int|
            0 <= i < k && #[trigger] latest_below(us, k)[p] == us[i] && !superseded(us, i) by {
            if p < prev.len() {
                assert(latest_below(us, k)[p] == prev[p]);
                let i = choose|i: int| 0 <= i < k - 1 && #[trigger] prev[p] == us[i] && !superseded(us, i);
                assert(0 <= i < k && latest_below(us, k)[p] == us[i] && !superseded(us, i));
            } else {
                assert(latest_below(us, k)[p] == us[k - 1]);
            }
        }
    }
}

proof fn lemma_latest_once(us: Seq<UpdateV>, k: int)
    requires
        0 <= k <= us.len(),
    ensures
        forall|p: int, q: int| 0 <= p < q < latest_below(us, k).len()
            ==> !same_target(#[trigger] latest_below(us, k)[p], #[trigger] latest_below(us, k)[q]),
    decreases k,
{
    if k > 0 {
        lemma_latest_once(us, k - 1);
        lemma_latest_members(us, k - 1);
        let prev = latest_below(us, k - 1);
        if !superseded(us, k - 1) {
            assert forall|p: int, q: int| 0 <= p < q < latest_below(us, k).len()
                implies !same_target(#[trigger] latest_below(us, k)[p], #[trigger] latest_below(us, k)[q]) by {
                if q == prev.len() {
                    assert(latest_below(us, k)[p] == prev[p]);
                    let i = choose|i: int| 0 <= i < k - 1 && #[trigger] prev[p] == us[i] && !superseded(us, i);
                    if same_target(us[i], us[k - 1]) {
                        assert(same_target(us[k - 1], us[i]));
                        assert(superseded(us, i));
                    }
                } else {
                    assert(latest_below(us, k)[p] == prev[p]);
                    assert(latest_below(us, k)[q] == prev[q]);
                }
            }
        }
    }
}

proof fn lemma_latest_keeps(us: Seq<UpdateV>, k: int, i: int)
    requires
        0 <= i < k <= us.len(),
        !superseded(us, i),
    ensures
        latest_below(us, k).contains(us[i]),
    decreases k,
{
    if i < k - 1 {
        lemma_latest_keeps(us, k - 1, i);
        let prev = latest_below(us, k - 1);
        let p = choose|p: int| 0 <= p < prev.len() && prev[p] == us[i];
        if !superseded(us, k - 1) {
            assert(latest_below(us, k)[p] == us[i]);
        }
    } else {
        assert(latest_below(us, k).last() == us[i]);
    }
}

/// Some update at `i` or later has the target of update `i` and is the last with it.
proof fn lemma_last_of_target(us: Seq<UpdateV>, i: int)
    requires
        0 <= i < us.len(),
    ensures
        exists|j: int| i <= j < us.len() && same_target(#[trigger] us[j], us[i]) && !superseded(us, j),
    decreases us.len() - i,
{
    if superseded(us, i) {
        let j = choose|j: int| i < j < us.len() && same_target(#[trigger] us[j], us[i]);
        lemma_last_of_target(us, j);
        let m = choose|m: int| j <= m < us.len() && same_target(#[trigger] us[m], us[j]) && !superseded(us, m);
        assert(same_target(us[m], us[i]));
    } else {
        assert(same_target(us[i], us[i]));
    }
}

/// Of the updates a batch of events asks of a tree, no two concern the same kind of
/// change of the same node.
pub proof fn law_planned_once(vm_id: i64, es: Seq<ChangeEvent>)
    ensures
        forall|p: int, q: int| 0 <= p < q < planned(vm_id, es).len()
            ==> !same_target(#[trigger] planned(vm_id, es)[p], #[trigger] planned(vm_id, es)[q]),
{
    let us = updates_of(vm_id, es, es.len() as int);
    lemma_latest_once(us, us.len() as int);
}

/// Update `j` of those the events ask for is the last with the target of update
/// `i`, and the plan keeps it.
pub open spec fn kept_last(vm_id: i64, es: Seq<ChangeEvent>, i: int, j: int) -> bool {
    let us = updates_of(vm_id, es, es.len() as int);
    &&& i <= j < us.len()
    &&& same_target(us[j], us[i])
    &&& !superseded(us, j)
    &&& planned(vm_id, es).contains(us[j])
}

/// For each update the events ask for (the `i`-th), the plan keeps the update of the
/// last event with the same kind of change of the same node (the `j`-th): the last
/// event wins.
pub proof fn law_last_event_wins(vm_id: i64, es: Seq<ChangeEvent>, i: int) -> (j: int)
    requires
        0 <= i < updates_of(vm_id, es, es.len() as int).len(),
    ensures
        kept_last(vm_id, es, i, j),
{
    let us = updates_of(vm_id, es, es.len() as int);
    lemma_last_of_target(us, i);
    let j = choose|j: int| i <= j < us.len() && same_target(#[trigger] us[j], us[i]) && !superseded(us, j);
    lemma_latest_keeps(us, us.len() as int, j);
    j
}

/// A name or description update is read back from the node it names; other nodes
/// stay as they were.
pub proof fn law_update_read_back(t: TreeV, u: UpdateV, fresh: Option<RawNode>, other: int)
    requires
        has_node(t, u.handle as int),
        u.kind == UpdateKind::Name || u.kind == UpdateKind::Description,
        u.value is Some,
        other != u.handle,
    ensures
        has_node(applied(t, u, fresh), u.handle as int),
        u.kind == UpdateKind::Name ==> node(applied(t, u, fresh), u.handle as int).name == u.value->0,
        u.kind == UpdateKind::Description ==> node(applied(t, u, fresh), u.handle as int).description == u.value->0,
        applied(t, u, fresh).len() == t.len(),
        0 <= other < t.len() ==> applied(t, u, fresh)[other] == t[other],
{
}

} // verus!
