//! The elements handed out to clients: each Java object gets a handle, and events
//! about an object name it by its handle.
use vstd::prelude::*;
use std::collections::HashMap;

use crate::bridge::JabCallbackEvent;

verus! {

/// A virtual machine id and an object of it.
pub type JavaElement = (i32, i64);

/// Handles of the elements registered so far, the handle of each registered object,
/// the next handle to hand out, and the selected virtual machine and root object.
#[derive(Debug)]
pub struct ElementRegistry {
    elements: HashMap<u64, JavaElement>,
    object_to_handle: HashMap<i64, u64>,
    next_handle: u64,
    vm_id: Option<i32>,
    root_context: Option<i64>,
}

pub struct RegistryV {
    pub elements: Map<u64, JavaElement>,
    pub objects: Map<i64, u64>,
    pub next_handle: u64,
    pub vm_id: Option<i32>,
    pub root_context: Option<i64>,
}

impl View for ElementRegistry {
    type V = RegistryV;

    closed spec fn view(&self) -> RegistryV {
        RegistryV {
            elements: self.elements@,
            objects: self.object_to_handle@,
            next_handle: self.next_handle,
            vm_id: self.vm_id,
            root_context: self.root_context,
        }
    }
}

/// Every registered handle lies below the next one to hand out.
pub open spec fn registry_wf(r: RegistryV) -> bool {
    forall|h: u64| #[trigger] r.elements.contains_key(h) ==> h < r.next_handle
}

/// The element of handle `h`, if registered.
pub open spec fn lookup(r: RegistryV, h: u64) -> Option<JavaElement> {
    if r.elements.contains_key(h) {
        Some(r.elements[h])
    } else {
        None
    }
}

/// The elements of the handles `hs`, in order.
pub open spec fn elements_of(r: RegistryV, hs: Seq<u64>) -> Seq<JavaElement>
    decreases hs.len(),
{
    if hs.len() == 0 {
        seq![]
    } else {
        elements_of(r, hs.drop_last()).push(r.elements[hs.last()])
    }
}

/// The registry once object `context` of machine `vm_id` is registered under the
/// next handle (the counter wraps around as an atomic counter does).
pub open spec fn registered(r: RegistryV, vm_id: i32, context: i64) -> RegistryV {
    RegistryV {
        elements: r.elements.insert(r.next_handle, (vm_id, context)),
        objects: r.objects.insert(context, r.next_handle),
        next_handle: if r.next_handle == u64::MAX { 0 } else { (r.next_handle + 1) as u64 },
        ..r
    }
}

/// The registry once handle `h` is released: its element goes, and so does the
/// handle of its object.
pub open spec fn released(r: RegistryV, h: u64) -> RegistryV {
    if r.elements.contains_key(h) {
        RegistryV { elements: r.elements.remove(h), objects: r.objects.remove(r.elements[h].1), ..r }
    } else {
        r
    }
}

impl ElementRegistry {
    /// An empty registry; the first handle is 1.
    pub fn new() -> (r: ElementRegistry)
        ensures
            r@.elements == Map::<u64, JavaElement>::empty(),
            r@.objects == Map::<i64, u64>::empty(),
            r@.next_handle == 1,
            r@.vm_id is None,
            r@.root_context is None,
            registry_wf(r@),
    {
        ElementRegistry {
            elements: HashMap::new(),
            object_to_handle: HashMap::new(),
            next_handle: 1,
            vm_id: None,
            root_context: None,
        }
    }

    /// Registers object `context` of machine `vm_id` and gives its handle.
    pub fn register_element(&mut self, vm_id: i32, context: i64) -> (h: u64)
        ensures
            h == old(self)@.next_handle,
            final(self)@ == registered(old(self)@, vm_id, context),
    {
        broadcast use vstd::std_specs::hash::group_hash_axioms;
        let h = self.next_handle;
        self.next_handle = self.next_handle.wrapping_add(1);
        self.elements.insert(h, (vm_id, context));
        self.object_to_handle.insert(context, h);
        assert(self@.elements == registered(old(self)@, vm_id, context).elements);
        h
    }

    /// The element of handle `h`, if registered.
    pub fn get_element(&self, h: u64) -> (r: Option<JavaElement>)
        ensures
            r == lookup(self@, h),
    {
        broadcast use vstd::std_specs::hash::group_hash_axioms;
        match self.elements.get(&h) {
            Some(e) => Some(*e),
            None => None,
        }
    }

    /// Releases handle `h`, and gives its element (whose object is then to be released
    /// to the bridge), if it was registered.
    pub fn release_element(&mut self, h: u64) -> (r: Option<JavaElement>)
        ensures
            r == lookup(old(self)@, h),
            final(self)@ == released(old(self)@, h),
    {
        broadcast use vstd::std_specs::hash::group_hash_axioms;
        let ghost before = self@;
        let removed = self.elements.remove(&h);
        match removed {
            Some(e) => {
                self.object_to_handle.remove(&e.1);
                assert(before.elements.contains_key(h) && before.elements[h] == e);
                assert(self@ == released(before, h));
                Some(e)
            },
            None => {
                assert(self@.elements =~= before.elements);
                None
            },
        }
    }

    /// The handle of object `context`, if registered.
    pub fn handle_of(&self, context: i64) -> (r: Option<u64>)
        ensures
            r == (if self@.objects.contains_key(context) { Some(self@.objects[context]) } else { None }),
    {
        broadcast use vstd::std_specs::hash::group_hash_axioms;
        match self.object_to_handle.get(&context) {
            Some(h) => Some(*h),
            None => None,
        }
    }

    /// An event with its context object replaced by that object's handle, when the
    /// object is registered.
    pub fn resolve_event(&self, event: JabCallbackEvent) -> (r: JabCallbackEvent)
        ensures
            r.event_type == event.event_type,
            r.vm_id == event.vm_id,
            r.message == event.message,
            r.event_time == event.event_time,
            r.context_handle == (if self@.objects.contains_key(event.context_handle as i64) {
                self@.objects[event.context_handle as i64]
            } else {
                event.context_handle
            }),
    {
        let context = event.context_handle as i64;
        match self.handle_of(context) {
            Some(h) => JabCallbackEvent { context_handle: h, ..event },
            None => event,
        }
    }

    pub fn set_vm_id(&mut self, vm_id: i32)
        ensures
            final(self)@ == (RegistryV { vm_id: Some(vm_id), ..old(self)@ }),
    {
        self.vm_id = Some(vm_id);
    }

    pub fn get_vm_id(&self) -> (r: Option<i32>)
        ensures
            r == self@.vm_id,
    {
        self.vm_id
    }

    /// Sets the root object, and gives the one it replaces (to be released to the
    /// bridge).
    pub fn set_root_context(&mut self, context: i64) -> (previous: Option<i64>)
        ensures
            final(self)@ == (RegistryV { root_context: Some(context), ..old(self)@ }),
            previous == old(self)@.root_context,
    {
        let previous = self.root_context;
        self.root_context = Some(context);
        previous
    }

    /// Empties the registry when it is shut down: gives every registered element (one
    /// per handle, the handles in no particular order) and the root object, all to be
    /// released to the bridge; the machine and the handle counter stay.
    pub fn release_all(&mut self) -> (r: (Vec<JavaElement>, Option<i64>))
        ensures
            final(self)@ == (RegistryV {
                elements: Map::empty(),
                objects: Map::empty(),
                root_context: None,
                ..old(self)@
            }),
            r.1 == old(self)@.root_context,
            exists|hs: Seq<u64>| #[trigger] elements_of(old(self)@, hs) == r.0@ && hs.no_duplicates()
                && hs.to_set() == old(self)@.elements.dom(),
    {
        broadcast use vstd::std_specs::hash::group_hash_axioms;
        let ghost before = self@;
        let mut handles: Vec<u64> = Vec::new();
        for h in it: self.elements.keys()
            invariant
                handles@ == it.seq().take(it.index()).unref(),
                it.seq().unref().to_set() == before.elements.dom(),
                it.seq().unref().no_duplicates(),
                it.index() == it.seq().len() ==> handles@ == it.seq().unref(),
            ensures
                handles@.to_set() == before.elements.dom(),
                handles@.no_duplicates(),
        {
            handles.push(*h);
            assert(it.seq().take(it.index() + 1).unref() =~= handles@);
            assert(it.index() + 1 == it.seq().len() ==> it.seq().take(it.index() + 1) =~= it.seq());
        }
        let ghost hs = handles@;
        assert(hs.to_set() == before.elements.dom() && hs.no_duplicates());
        let mut released: Vec<JavaElement> = Vec::new();
        let mut i: usize = 0;
        while i < handles.len()
            invariant
                self@ == before,
                hs == handles@,
                hs.to_set() == before.elements.dom(),
                0 <= i <= handles@.len(),
                released@ == elements_of(before, hs.take(i as int)),
            decreases handles.len() - i,
        {
            let h = handles[i];
            assert(hs.contains(h) && before.elements.dom().contains(h)) by {
                assert(hs[i as int] == h);
                assert(hs.to_set().contains(h));
            }
            let e = *self.elements.get(&h).unwrap();
            released.push(e);
            assert(hs.take(i + 1).drop_last() =~= hs.take(i as int));
            i += 1;
        }
        assert(hs.take(hs.len() as int) =~= hs);
        self.elements.clear();
        self.object_to_handle.clear();
        let root = self.root_context;
        self.root_context = None;
        (released, root)
    }

    pub fn get_root_context(&self) -> (r: Option<i64>)
        ensures
            r == self@.root_context,
    {
        self.root_context
    }
}

/// Reading a handle right after registering an object gives that object back.
pub proof fn law_get_after_register(r: RegistryV, vm_id: i32, context: i64)
    ensures
        lookup(registered(r, vm_id, context), r.next_handle) == Some((vm_id, context)),
{
}

/// Registering an object leaves every other handle as it was.
pub proof fn law_register_keeps_others(r: RegistryV, vm_id: i32, context: i64, h: u64)
    requires
        h != r.next_handle,
    ensures
        lookup(registered(r, vm_id, context), h) == lookup(r, h),
{
}

/// A released handle reads as unregistered, and every other handle as before.
pub proof fn law_get_after_release(r: RegistryV, h: u64, other: u64)
    requires
        other != h,
    ensures
        lookup(released(r, h), h) is None,
        lookup(released(r, h), other) == lookup(r, other),
{
}

/// Until the counter runs out, registering hands out a handle not in use, and the
/// registry stays well formed.
pub proof fn law_register_fresh(r: RegistryV, vm_id: i32, context: i64)
    requires
        registry_wf(r),
        r.next_handle < u64::MAX,
    ensures
        lookup(r, r.next_handle) is None,
        registry_wf(registered(r, vm_id, context)),
{
    let r2 = registered(r, vm_id, context);
    assert forall|h: u64| #[trigger] r2.elements.contains_key(h) implies h < r2.next_handle by {
        if h != r.next_handle {
            assert(r.elements.contains_key(h));
        }
    }
}

/// Releasing keeps the registry well formed.
pub proof fn law_release_wf(r: RegistryV, h: u64)
    requires
        registry_wf(r),
    ensures
        registry_wf(released(r, h)),
{
}

/// One call on a registry: registering an object, or releasing a handle.
pub enum RegistryOp {
    Register(i32, i64),
    Release(u64),
}

/// The registry after one call.
pub open spec fn apply_op(r: RegistryV, op: RegistryOp) -> RegistryV {
    match op {
        RegistryOp::Register(vm_id, context) => registered(r, vm_id, context),
        RegistryOp::Release(h) => released(r, h),
    }
}

/// The registry after a sequence of calls, made in order.
pub open spec fn apply_ops(r: RegistryV, ops: Seq<RegistryOp>) -> RegistryV
    decreases ops.len(),
{
    if ops.len() == 0 {
        r
    } else {
        apply_op(apply_ops(r, ops.drop_last()), ops.last())
    }
}

/// The handle that call `i` of `ops` hands out, when it registers an object.
pub open spec fn handle_given(r: RegistryV, ops: Seq<RegistryOp>, i: int) -> u64 {
    apply_ops(r, ops.take(i)).next_handle
}

/// Each call moves the next handle on by at most one, and a registration by exactly
/// one, as long as the counter does not run out.
proof fn lemma_next_handle(r: RegistryV, ops: Seq<RegistryOp>, a: int, b: int)
    requires
        0 <= a <= b <= ops.len(),
        r.next_handle + ops.len() < u64::MAX,
    ensures
        r.next_handle <= handle_given(r, ops, a) <= handle_given(r, ops, b) <= r.next_handle + b,
        handle_given(r, ops, a) <= r.next_handle + a,
        a < b && ops[a] is Register ==> handle_given(r, ops, a) < handle_given(r, ops, b),
    decreases b,
{
    if b > 0 {
        lemma_next_handle(r, ops, if a == b { a - 1 } else { a }, b - 1);
        assert(ops.take(b).drop_last() =~= ops.take(b - 1));
        assert(ops.take(b).last() == ops[b - 1]);
        if a == b {
            lemma_next_handle(r, ops, a - 1, a - 1);
        } else if a == b - 1 {
            lemma_next_handle(r, ops, a, a);
        }
    } else {
        assert(ops.take(0) =~= Seq::<RegistryOp>::empty());
    }
}

/// A registered handle reads as its element after every later call but a release of
/// that handle, as long as the counter does not run out.
proof fn lemma_kept(r: RegistryV, ops: Seq<RegistryOp>, i: int, k: int)
    requires
        0 <= i < k <= ops.len(),
        r.next_handle + ops.len() < u64::MAX,
        ops[i] matches RegistryOp::Register(vm_id, context),
        forall|j: int| i < j < ops.len() ==> ops[j] != RegistryOp::Release(handle_given(r, ops, i)),
    ensures
        ops[i] matches RegistryOp::Register(vm_id, context)
            && lookup(apply_ops(r, ops.take(k)), handle_given(r, ops, i)) == Some((vm_id, context)),
    decreases k,
{
    let h = handle_given(r, ops, i);
    assert(ops.take(k).drop_last() =~= ops.take(k - 1));
    assert(ops.take(k).last() == ops[k - 1]);
    if k == i + 1 {
    } else {
        lemma_kept(r, ops, i, k - 1);
        lemma_next_handle(r, ops, i, k - 1);
    }
}

/// Handles persist and are never handed out twice: from a registry whose next
/// handle is at least 1, over any sequence of calls that does not run the counter
/// out, every registration hands out a handle of at least 1, larger than each handle
/// handed out before it, and that handle reads as the registered element until it
/// is released.
pub proof fn law_handles_persist(r: RegistryV, ops: Seq<RegistryOp>)
    requires
        r.next_handle >= 1,
        r.next_handle + ops.len() < u64::MAX,
    ensures
        forall|i: int| 0 <= i < ops.len() && #[trigger] ops[i] is Register ==> handle_given(r, ops, i) >= 1,
        forall|i: int, j: int| 0 <= i < j < ops.len() && #[trigger] ops[i] is Register && #[trigger] ops[j] is Register
            ==> handle_given(r, ops, i) < handle_given(r, ops, j),
        forall|i: int| 0 <= i < ops.len() && (#[trigger] ops[i] matches RegistryOp::Register(vm_id, context))
            && (forall|j: int| i < j < ops.len() ==> ops[j] != RegistryOp::Release(handle_given(r, ops, i)))
            ==> (ops[i] matches RegistryOp::Register(vm_id, context)
                && lookup(apply_ops(r, ops), handle_given(r, ops, i)) == Some((vm_id, context))),
{
    assert forall|i: int| 0 <= i < ops.len() && #[trigger] ops[i] is Register implies handle_given(r, ops, i) >= 1 by {
        lemma_next_handle(r, ops, i, i);
    }
    assert forall|i: int, j: int| 0 <= i < j < ops.len() && #[trigger] ops[i] is Register && #[trigger] ops[j] is Register
        implies handle_given(r, ops, i) < handle_given(r, ops, j) by {
        lemma_next_handle(r, ops, i, j);
    }
    assert forall|i: int| 0 <= i < ops.len() && (#[trigger] ops[i] matches RegistryOp::Register(vm_id, context))
        && (forall|j: int| i < j < ops.len() ==> ops[j] != RegistryOp::Release(handle_given(r, ops, i)))
        implies (ops[i] matches RegistryOp::Register(vm_id, context)
            && lookup(apply_ops(r, ops), handle_given(r, ops, i)) == Some((vm_id, context))) by {
        lemma_kept(r, ops, i, ops.len() as int);
        assert(ops.take(ops.len() as int) =~= ops);
    }
}

} // verus!
