//! A tree of elements, each owning its children, searched with field locators: a
//! name, role, description or text (plain or a regular expression), an index in
//! the parent, a required ancestor and required descendants.
use vstd::prelude::*;

use crate::pattern::{regex_finds, regex_is_match};
use crate::registry::{lookup, registered, released, ElementRegistry, JavaElement, RegistryV};
use crate::text::{str_eq, string_of};

verus! {

// ---------------------------------------------------------------------------
// Locators

/// A string field's locator: the exact text, or a regular expression found in it.
#[derive(Debug, Clone)]
pub struct StringLocator {
    pub find: String,
    pub regex: bool,
}

#[derive(Debug, Clone, Copy)]
pub struct IndexLocator {
    pub index: i32,
}

/// An ancestor that must match: the parent itself, or any ancestor.
#[derive(Debug)]
pub struct AscendantLocator {
    pub is_parent: bool,
    pub locator: Option<Box<ElementLocator>>,
}

/// A descendant that must match: a child, or any node below.
#[derive(Debug)]
pub struct DescendantLocator {
    pub is_child: bool,
    pub locator: Option<ElementLocator>,
}

#[derive(Debug)]
pub struct ElementLocator {
    pub name: Option<StringLocator>,
    pub role: Option<StringLocator>,
    pub description: Option<StringLocator>,
    pub text: Option<StringLocator>,
    pub index_in_parent: Option<IndexLocator>,
    pub ascendant: Option<AscendantLocator>,
    pub descendants: Vec<DescendantLocator>,
}

// ---------------------------------------------------------------------------
// The tree

/// An element with the children read below it.
#[derive(Debug)]
pub struct ElementNode {
    pub vm_id: i32,
    pub context: i64,
    pub handle: u64,
    pub name: String,
    pub role: String,
    pub description: String,
    pub children: Vec<ElementNode>,
    pub text: String,
    pub x: i32,
    pub y: i32,
    pub width: i32,
    pub height: i32,
    pub accessible_action: bool,
    pub accessible_text: bool,
    pub accessible_selection: bool,
    pub visible_children_count: i32,
    pub index_in_parent: i32,
}

/// The elements of a window, from its root.
#[derive(Debug)]
pub struct ElementTree {
    pub root: Option<ElementNode>,
    pub max_depth: Option<i32>,
}

// ---------------------------------------------------------------------------
// Matching

pub open spec fn string_field_holds(v: Seq<char>, loc: Option<StringLocator>) -> bool {
    match loc {
        None => true,
        Some(sl) => if sl.regex {
            regex_finds(sl.find@, false, v)
        } else {
            v == sl.find@
        },
    }
}

/// The node's own fields match the locator (ancestors and descendants aside).
pub open spec fn fields_hold(n: ElementNode, loc: ElementLocator) -> bool {
    &&& string_field_holds(n.name@, loc.name)
    &&& string_field_holds(n.role@, loc.role)
    &&& string_field_holds(n.description@, loc.description)
    &&& string_field_holds(n.text@, loc.text)
    &&& (loc.index_in_parent matches Some(il) ==> n.index_in_parent == il.index)
}

pub open spec fn fields_hold_opt(n: ElementNode, loc: Option<ElementLocator>) -> bool {
    match loc {
        Some(l) => fields_hold(n, l),
        None => false,
    }
}

/// One of the first `k` children of `n`, or (unless only children count) a node
/// below one of them, has fields that match `d`.
pub open spec fn descendant_among(n: ElementNode, d: DescendantLocator, k: int) -> bool
    decreases n, 0int, k,
{
    if k <= 0 || k > n.children@.len() {
        false
    } else {
        descendant_among(n, d, k - 1) || {
            proof {
                broadcast use vstd::std_specs::vec::group_vec_axioms;
                assert(decreases_to!(n => n.children));
                assert(decreases_to!(n.children => n.children@));
                assert(decreases_to!(n.children@ => n.children@[k - 1]));
            }
            let c = n.children@[k - 1];
            fields_hold_opt(c, d.locator) || (!d.is_child && has_descendant(c, d))
        }
    }
}

pub open spec fn has_descendant(n: ElementNode, d: DescendantLocator) -> bool
    decreases n, 1int, 0int,
{
    descendant_among(n, d, n.children@.len() as int)
}

/// The ancestor requirement holds, given the ancestors from the root down.
pub open spec fn ascendant_holds(loc: Option<AscendantLocator>, ancestors: Seq<ElementNode>) -> bool {
    match loc {
        None => true,
        Some(asc) => match asc.locator {
            None => false,
            Some(l) => if asc.is_parent {
                ancestors.len() > 0 && fields_hold(ancestors.last(), *l)
            } else {
                exists|i: int| 0 <= i < ancestors.len() && fields_hold(#[trigger] ancestors[i], *l)
            },
        },
    }
}

/// Node `n`, under `ancestors` (from the root down), matches the locator.
pub open spec fn node_holds(n: ElementNode, loc: ElementLocator, ancestors: Seq<ElementNode>) -> bool {
    &&& fields_hold(n, loc)
    &&& ascendant_holds(loc.ascendant, ancestors)
    &&& forall|i: int| 0 <= i < loc.descendants@.len() ==> has_descendant(n, #[trigger] loc.descendants@[i])
}

/// Whether a string field matches its locator: a plain locator is the exact text; a
/// regular expression must compile and be found in the text.
pub fn matches_string_field(field_value: &str, locator: &Option<StringLocator>) -> (r: bool)
    ensures
        r == string_field_holds(field_value@, *locator),
{
    match locator {
        None => true,
        Some(sl) => if sl.regex {
            regex_is_match(sl.find.as_str(), false, field_value)
        } else {
            str_eq(field_value, sl.find.as_str())
        },
    }
}

pub fn matches_node_simple(node: &ElementNode, locator: &ElementLocator) -> (r: bool)
    ensures
        r == fields_hold(*node, *locator),
{
    if !matches_string_field(node.name.as_str(), &locator.name) {
        return false;
    }
    if !matches_string_field(node.role.as_str(), &locator.role) {
        return false;
    }
    if !matches_string_field(node.description.as_str(), &locator.description) {
        return false;
    }
    if !matches_string_field(node.text.as_str(), &locator.text) {
        return false;
    }
    match &locator.index_in_parent {
        Some(il) => node.index_in_parent == il.index,
        None => true,
    }
}

pub fn matches_node_simple_opt(node: &ElementNode, locator: &Option<Box<ElementLocator>>) -> (r: bool)
    ensures
        r == match locator {
            Some(l) => fields_hold(*node, **l),
            None => false,
        },
{
    match locator {
        None => false,
        Some(l) => matches_node_simple(node, l),
    }
}

pub fn matches_node_simple_opt_ref(node: &ElementNode, locator: &Option<ElementLocator>) -> (r: bool)
    ensures
        r == fields_hold_opt(*node, *locator),
{
    match locator {
        None => false,
        Some(l) => matches_node_simple(node, l),
    }
}

/// Whether a child of `node` (or, unless only children count, a node below it)
/// matches the descendant locator.
pub fn has_descendant_matching(node: &ElementNode, desc: &DescendantLocator) -> (r: bool)
    ensures
        r == has_descendant(*node, *desc),
    decreases *node, 1int, 0int,
{
    let k = node.children.len();
    let mut i: usize = k;
    while i > 0
        invariant
            0 <= i <= k,
            k == node.children@.len(),
            has_descendant(*node, *desc) == descendant_among(*node, *desc, i as int),
        decreases i,
    {
        proof {
            broadcast use vstd::std_specs::vec::group_vec_axioms;
            assert(decreases_to!(*node => node.children));
            assert(decreases_to!(node.children => node.children@));
            assert(decreases_to!(node.children@ => node.children@[i - 1]));
        }
        let c = &node.children[i - 1];
        if matches_node_simple_opt_ref(c, &desc.locator) {
            return true;
        }
        if !desc.is_child && has_descendant_matching(c, desc) {
            return true;
        }
        i -= 1;
    }
    false
}

/// Whether `node`, under `ancestors` (from the root down), matches the locator.
pub fn node_matches(node: &ElementNode, locator: &ElementLocator, ancestors: &Vec<&ElementNode>) -> (r: bool)
    ensures
        r == node_holds(*node, *locator, ancestors@.map_values(|a: &ElementNode| *a)),
{
    let ghost anc = ancestors@.map_values(|a: &ElementNode| *a);
    if !matches_node_simple(node, locator) {
        return false;
    }
    match &locator.ascendant {
        Some(asc) => {
            let found = if asc.is_parent {
                if ancestors.len() > 0 {
                    let parent = ancestors[ancestors.len() - 1];
                    assert(*parent == anc.last());
                    matches_node_simple_opt(parent, &asc.locator)
                } else {
                    false
                }
            } else {
                let mut any = false;
                let mut i: usize = 0;
                while i < ancestors.len()
                    invariant
                        anc == ancestors@.map_values(|a: &ElementNode| *a),
                        0 <= i <= ancestors@.len(),
                        any == (asc.locator is Some && exists|j: int| 0 <= j < i && fields_hold(#[trigger] anc[j], *asc.locator->0)),
                    decreases ancestors.len() - i,
                {
                    assert(*ancestors@[i as int] == anc[i as int]);
                    if matches_node_simple_opt(ancestors[i], &asc.locator) {
                        any = true;
                    }
                    i += 1;
                }
                any
            };
            if !found {
                return false;
            }
        },
        None => {},
    }
    let mut i: usize = 0;
    while i < locator.descendants.len()
        invariant
            0 <= i <= locator.descendants@.len(),
            forall|j: int| 0 <= j < i ==> has_descendant(*node, #[trigger] locator.descendants@[j]),
        decreases locator.descendants.len() - i,
    {
        if !has_descendant_matching(node, &locator.descendants[i]) {
            return false;
        }
        i += 1;
    }
    true
}

/// A plain string locator asks for exactly that text; no locator asks nothing.
pub proof fn law_string_field(v: Seq<char>, find: String)
    ensures
        string_field_holds(v, Some(StringLocator { find, regex: false })) <==> v == find@,
        string_field_holds(v, None),
{
}

/// A node's own fields match a locator exactly when its name, role, description and
/// text each match the locator of the same field, and its index is the one asked
/// for, if any.
pub proof fn law_fields_by_name(n: ElementNode, loc: ElementLocator)
    ensures
        fields_hold(n, loc) <==> (string_field_holds(n.name@, loc.name) && string_field_holds(n.role@, loc.role)
            && string_field_holds(n.description@, loc.description) && string_field_holds(n.text@, loc.text)
            && (loc.index_in_parent matches Some(il) ==> n.index_in_parent == il.index)),
{
}

/// The ancestor requirement: a parent locator looks at the parent (the last of the
/// ancestors from the root down) and only at it; any other ancestor locator holds
/// as soon as one ancestor, wherever it stands, matches, and fails when none does.
/// So a parent that matches always meets the ancestor locator too, more ancestors
/// never undo a match, and no locator at all always holds.
pub proof fn law_ascendant(l: ElementLocator, ancestors: Seq<ElementNode>, more: Seq<ElementNode>)
    ensures
        ({
            let any = Some(AscendantLocator { is_parent: false, locator: Some(Box::new(l)) });
            let parent = Some(AscendantLocator { is_parent: true, locator: Some(Box::new(l)) });
            &&& forall|i: int| 0 <= i < ancestors.len() && fields_hold(#[trigger] ancestors[i], l)
                ==> ascendant_holds(any, ancestors)
            &&& ascendant_holds(any, ancestors) ==> exists|i: int| 0 <= i < ancestors.len() && fields_hold(#[trigger] ancestors[i], l)
            &&& ascendant_holds(parent, ancestors) <==> (ancestors.len() > 0 && fields_hold(ancestors[ancestors.len() - 1], l))
            &&& ascendant_holds(parent, ancestors) ==> ascendant_holds(any, ancestors)
            &&& ascendant_holds(any, ancestors) ==> ascendant_holds(any, more + ancestors) && ascendant_holds(any, ancestors + more)
            &&& ascendant_holds(None, ancestors)
        }),
{
    let any = Some(AscendantLocator { is_parent: false, locator: Some(Box::new(l)) });
    if ascendant_holds(any, ancestors) {
        let i = choose|i: int| 0 <= i < ancestors.len() && fields_hold(#[trigger] ancestors[i], l);
        assert((more + ancestors)[more.len() + i] == ancestors[i]);
        assert((ancestors + more)[i] == ancestors[i]);
    }
    if ancestors.len() > 0 {
        assert(ancestors[ancestors.len() - 1] == ancestors.last());
    }
}

/// The first `k` children of `n` hold a match exactly when one of them matches the
/// locator itself or (unless only children count) has a match below it.
proof fn lemma_descendant_among(n: ElementNode, d: DescendantLocator, k: int)
    requires
        0 <= k <= n.children@.len(),
    ensures
        descendant_among(n, d, k) <==> exists|i: int| 0 <= i < k && (fields_hold_opt(#[trigger] n.children@[i], d.locator)
            || (!d.is_child && has_descendant(n.children@[i], d))),
    decreases k,
{
    if k > 0 {
        lemma_descendant_among(n, d, k - 1);
        let c = n.children@[k - 1];
        if fields_hold_opt(c, d.locator) || (!d.is_child && has_descendant(c, d)) {
            assert(exists|i: int| 0 <= i < k && (fields_hold_opt(#[trigger] n.children@[i], d.locator)
                || (!d.is_child && has_descendant(n.children@[i], d))));
        }
    }
}

/// A child locator holds when some child matches it, and only then; any other
/// descendant locator holds when some child matches it or holds below some child,
/// and only then. A locator without fields finds nothing.
pub proof fn law_descendants(n: ElementNode, l: ElementLocator)
    ensures
        ({
            let child = DescendantLocator { is_child: true, locator: Some(l) };
            let any = DescendantLocator { is_child: false, locator: Some(l) };
            &&& has_descendant(n, child) <==> exists|i: int| 0 <= i < n.children@.len() && fields_hold(#[trigger] n.children@[i], l)
            &&& has_descendant(n, any) <==> exists|i: int| 0 <= i < n.children@.len()
                && (fields_hold(#[trigger] n.children@[i], l) || has_descendant(n.children@[i], any))
            &&& has_descendant(n, child) ==> has_descendant(n, any)
            &&& !has_descendant(n, DescendantLocator { is_child: true, locator: None })
        }),
{
    let child = DescendantLocator { is_child: true, locator: Some(l) };
    let any = DescendantLocator { is_child: false, locator: Some(l) };
    let none = DescendantLocator { is_child: true, locator: None };
    let k = n.children@.len() as int;
    lemma_descendant_among(n, child, k);
    lemma_descendant_among(n, any, k);
    lemma_descendant_among(n, none, k);
    if has_descendant(n, child) {
        let i = choose|i: int| 0 <= i < k && (fields_hold_opt(#[trigger] n.children@[i], child.locator)
            || (!child.is_child && has_descendant(n.children@[i], child)));
        assert(fields_hold(n.children@[i], l));
    }
    if exists|i: int| 0 <= i < k && fields_hold(#[trigger] n.children@[i], l) {
        let i = choose|i: int| 0 <= i < k && fields_hold(#[trigger] n.children@[i], l);
        assert(fields_hold_opt(n.children@[i], child.locator));
    }
    if exists|i: int| 0 <= i < k && (fields_hold(#[trigger] n.children@[i], l) || has_descendant(n.children@[i], any)) {
        let i = choose|i: int| 0 <= i < k && (fields_hold(#[trigger] n.children@[i], l) || has_descendant(n.children@[i], any));
        assert(fields_hold_opt(n.children@[i], any.locator) || (!any.is_child && has_descendant(n.children@[i], any)));
    }
    if has_descendant(n, any) {
        let i = choose|i: int| 0 <= i < k && (fields_hold_opt(#[trigger] n.children@[i], any.locator)
            || (!any.is_child && has_descendant(n.children@[i], any)));
        assert(fields_hold(n.children@[i], l) || has_descendant(n.children@[i], any));
    }
    if has_descendant(n, none) {
        let i = choose|i: int| 0 <= i < k && (fields_hold_opt(#[trigger] n.children@[i], none.locator)
            || (!none.is_child && has_descendant(n.children@[i], none)));
    }
}

/// A node built from an element takes the next handle of the registry, the machine
/// and object it was read for, and copies the element's info: its name, role and
/// description without trailing NULs, its geometry, flags, child count and index;
/// without info, empty texts and zeros. Its text is left empty.
pub proof fn law_built_node_fields(n: ElementNode, r: RegistryV, raw: RawElement, vm_id: i32, depth: i32, max_depth: Option<i32>)
    requires
        is_built(n, r, raw, vm_id, depth, max_depth),
    ensures
        n.handle == r.next_handle && n.vm_id == vm_id && n.context == raw.context,
        n.text@.len() == 0,
        match raw.info {
            Some(i) => {
                &&& n.x == i.x && n.y == i.y && n.width == i.width && n.height == i.height
                &&& n.name@ == trim_nuls(i.name@) && n.role@ == trim_nuls(i.role@)
                &&& n.description@ == trim_nuls(i.description@)
                &&& n.accessible_action == (i.accessible_action != 0)
                &&& n.accessible_text == (i.accessible_text != 0)
                &&& n.accessible_selection == (i.accessible_selection != 0)
                &&& n.visible_children_count == i.children_count && n.index_in_parent == i.index_in_parent
            },
            None => {
                &&& n.x == 0 && n.y == 0 && n.width == 0 && n.height == 0
                &&& n.name@.len() == 0 && n.role@.len() == 0 && n.description@.len() == 0
                &&& n.visible_children_count == 0 && n.index_in_parent == 0
                &&& n.children@.len() == 0
            },
        },
{
}

/// The nodes at and below `n` that match, in depth-first order (a node before its
/// children), with `ancestors` the nodes above `n` from the root down.
pub open spec fn collected(n: ElementNode, loc: ElementLocator, ancestors: Seq<ElementNode>) -> Seq<ElementNode>
    decreases n, 1int, 0int,
{
    (if node_holds(n, loc, ancestors) { seq![n] } else { seq![] }) + collected_children(n, loc, ancestors, n.children@.len() as int)
}

/// What the first `k` children of `n` collect, child after child.
pub open spec fn collected_children(n: ElementNode, loc: ElementLocator, ancestors: Seq<ElementNode>, k: int) -> Seq<ElementNode>
    decreases n, 0int, k,
{
    if k <= 0 || k > n.children@.len() {
        seq![]
    } else {
        proof {
            broadcast use vstd::std_specs::vec::group_vec_axioms;
            assert(decreases_to!(n => n.children));
            assert(decreases_to!(n.children => n.children@));
            assert(decreases_to!(n.children@ => n.children@[k - 1]));
        }
        collected_children(n, loc, ancestors, k - 1) + collected(n.children@[k - 1], loc, ancestors.push(n))
    }
}

proof fn lemma_collected_children(n: ElementNode, loc: ElementLocator, ancestors: Seq<ElementNode>, k: int, j: int, x: ElementNode)
    requires
        0 <= j < k <= n.children@.len(),
        collected(n.children@[j], loc, ancestors.push(n)).contains(x),
    ensures
        collected_children(n, loc, ancestors, k).contains(x),
    decreases k,
{
    let prev = collected_children(n, loc, ancestors, k - 1);
    let last = collected(n.children@[k - 1], loc, ancestors.push(n));
    assert(collected_children(n, loc, ancestors, k) == prev + last);
    if j < k - 1 {
        lemma_collected_children(n, loc, ancestors, k - 1, j, x);
        let i = choose|i: int| 0 <= i < prev.len() && prev[i] == x;
        assert((prev + last)[i] == x);
    } else {
        let i = choose|i: int| 0 <= i < last.len() && last[i] == x;
        assert((prev + last)[prev.len() + i] == x);
    }
}

/// A search lists the node first when it matches (with its ancestors from the root
/// down), and lists everything that a search of any of its children finds, each
/// child searched with the node added to its ancestors; a node that does not match
/// and has no children gives nothing.
pub proof fn law_collected(n: ElementNode, loc: ElementLocator, ancestors: Seq<ElementNode>)
    ensures
        node_holds(n, loc, ancestors) ==> collected(n, loc, ancestors).len() >= 1 && collected(n, loc, ancestors)[0] == n,
        !node_holds(n, loc, ancestors) && n.children@.len() == 0 ==> collected(n, loc, ancestors).len() == 0,
        forall|j: int, x: ElementNode| 0 <= j < n.children@.len()
            && #[trigger] collected(n.children@[j], loc, ancestors.push(n)).contains(x)
            ==> collected(n, loc, ancestors).contains(x),
{
    let head = if node_holds(n, loc, ancestors) { seq![n] } else { seq![] };
    let rest = collected_children(n, loc, ancestors, n.children@.len() as int);
    assert(collected(n, loc, ancestors) == head + rest);
    assert forall|j: int, x: ElementNode| 0 <= j < n.children@.len()
        && #[trigger] collected(n.children@[j], loc, ancestors.push(n)).contains(x)
        implies collected(n, loc, ancestors).contains(x) by {
        lemma_collected_children(n, loc, ancestors, n.children@.len() as int, j, x);
        let i = choose|i: int| 0 <= i < rest.len() && rest[i] == x;
        assert((head + rest)[head.len() + i] == x);
    }
    if node_holds(n, loc, ancestors) {
        assert((head + rest)[0] == n);
    }
}

pub open spec fn deref_all(v: Seq<&ElementNode>) -> Seq<ElementNode> {
    v.map_values(|a: &ElementNode| *a)
}

fn collect_matching<'a>(node: &'a ElementNode, locator: &ElementLocator, ancestors: &Vec<&'a ElementNode>, results: &mut Vec<&'a ElementNode>)
    ensures
        deref_all(final(results)@) == deref_all(old(results)@) + collected(*node, *locator, deref_all(ancestors@)),
    decreases *node, 1int, 0int,
{
    let ghost before = deref_all(results@);
    let ghost anc = deref_all(ancestors@);
    if node_matches(node, locator, ancestors) {
        results.push(node);
    }
    assert(deref_all(results@) =~= before + (if node_holds(*node, *locator, anc) { seq![*node] } else { seq![] }));
    let mut child_ancestors: Vec<&'a ElementNode> = Vec::new();
    let mut j: usize = 0;
    while j < ancestors.len()
        invariant
            0 <= j <= ancestors@.len(),
            child_ancestors@ == ancestors@.take(j as int),
        decreases ancestors.len() - j,
    {
        child_ancestors.push(ancestors[j]);
        assert(child_ancestors@ =~= ancestors@.take(j + 1));
        j += 1;
    }
    assert(ancestors@.take(j as int) =~= ancestors@);
    child_ancestors.push(node);
    assert(deref_all(child_ancestors@) =~= anc.push(*node));
    let ghost mid = deref_all(results@);
    let mut i: usize = 0;
    while i < node.children.len()
        invariant
            0 <= i <= node.children@.len(),
            deref_all(child_ancestors@) == anc.push(*node),
            deref_all(results@) == mid + collected_children(*node, *locator, anc, i as int),
        decreases node.children.len() - i,
    {
        proof {
            broadcast use vstd::std_specs::vec::group_vec_axioms;
            assert(decreases_to!(*node => node.children));
            assert(decreases_to!(node.children => node.children@));
            assert(decreases_to!(node.children@ => node.children@[i as int]));
        }
        collect_matching(&node.children[i], locator, &child_ancestors, results);
        assert(deref_all(results@) =~= mid + collected_children(*node, *locator, anc, i + 1));
        i += 1;
    }
}

impl ElementTree {
    /// The nodes of the tree that match the locator, in depth-first order.
    pub fn get_elements(&self, locator: &ElementLocator) -> (r: Vec<&ElementNode>)
        ensures
            deref_all(r@) == match self.root {
                Some(root) => collected(root, *locator, seq![]),
                None => seq![],
            },
    {
        let mut results: Vec<&ElementNode> = Vec::new();
        match &self.root {
            Some(root) => {
                let none: Vec<&ElementNode> = Vec::new();
                assert(deref_all(none@) =~= seq![]);
                assert(deref_all(results@) =~= seq![]);
                collect_matching(root, locator, &none, &mut results);
            },
            None => {
                assert(deref_all(results@) =~= seq![]);
            },
        }
        results
    }
}

// ---------------------------------------------------------------------------
// Building the tree from the elements read

/// What the bridge reports of an element, with its texts decoded from the whole
/// fixed-size buffers (trailing NULs included).
#[derive(Debug, Clone)]
pub struct ElementInfo {
    pub name: String,
    pub role: String,
    pub description: String,
    pub x: i32,
    pub y: i32,
    pub width: i32,
    pub height: i32,
    pub accessible_action: i32,
    pub accessible_text: i32,
    pub accessible_selection: i32,
    pub children_count: i32,
    pub index_in_parent: i32,
}

/// An element as read: its object (0 for none), its info when the bridge gives it,
/// and the objects read as its children, one per child the info counts.
#[derive(Debug)]
pub struct RawElement {
    pub context: i64,
    pub info: Option<ElementInfo>,
    pub children: Vec<RawElement>,
}

/// `s` without its trailing NUL characters.
pub open spec fn trim_nuls(s: Seq<char>) -> Seq<char>
    decreases s.len(),
{
    if s.len() > 0 && s.last() == '\0' {
        trim_nuls(s.drop_last())
    } else {
        s
    }
}

/// Trimming NULs drops exactly the run of NULs at the end: what is left is a
/// prefix of the text that does not end in a NUL, and every character dropped is a
/// NUL.
pub proof fn law_trim_nuls(s: Seq<char>)
    ensures
        trim_nuls(s).len() <= s.len(),
        trim_nuls(s) == s.take(trim_nuls(s).len() as int),
        trim_nuls(s).len() == 0 || trim_nuls(s).last() != '\0',
        forall|j: int| trim_nuls(s).len() <= j < s.len() ==> #[trigger] s[j] == '\0',
    decreases s.len(),
{
    if s.len() > 0 && s.last() == '\0' {
        law_trim_nuls(s.drop_last());
        let t = trim_nuls(s.drop_last());
        assert(s.drop_last().take(t.len() as int) =~= s.take(t.len() as int));
        assert forall|j: int| t.len() <= j < s.len() implies #[trigger] s[j] == '\0' by {
            if j < s.len() - 1 {
                assert(s.drop_last()[j] == s[j]);
            }
        }
    } else {
        assert(s.take(s.len() as int) =~= s);
    }
}

/// `s.trim_end_matches('\0')`.
pub fn trim_nul_end(s: &str) -> (r: String)
    ensures
        r@ == trim_nuls(s@),
{
    let chars = crate::text::chars_of(s);
    let mut n: usize = chars.len();
    assert(chars@.take(n as int) =~= chars@);
    while n > 0 && chars[n - 1] == '\0'
        invariant
            0 <= n <= chars@.len(),
            trim_nuls(chars@) == trim_nuls(chars@.take(n as int)),
        decreases n,
    {
        assert(chars@.take(n as int).drop_last() =~= chars@.take(n - 1));
        n -= 1;
    }
    assert(trim_nuls(chars@.take(n as int)) == chars@.take(n as int));
    crate::text::string_of_range(&chars, 0, n)
}

/// Whether the children of an element at `depth` are built: the depth limit is not
/// reached (nor the largest depth an `i32` holds) and the element's info was read.
pub open spec fn grows(raw: RawElement, depth: i32, max_depth: Option<i32>) -> bool {
    &&& depth < i32::MAX
    &&& !(max_depth matches Some(m) && depth >= m)
    &&& raw.info is Some
}

/// The registry once element `raw` at `depth` and everything built below it are
/// registered, a node before its children.
pub open spec fn registry_after(r: RegistryV, raw: RawElement, vm_id: i32, depth: i32, max_depth: Option<i32>) -> RegistryV
    decreases raw, 1int, 0int,
{
    let r1 = registered(r, vm_id, raw.context);
    if grows(raw, depth, max_depth) {
        children_registry(r1, raw, vm_id, depth, max_depth, raw.children@.len() as int)
    } else {
        r1
    }
}

/// The registry once the first `i` children of `raw` (those with an object) are
/// registered with everything below them.
pub open spec fn children_registry(r: RegistryV, raw: RawElement, vm_id: i32, depth: i32, max_depth: Option<i32>, i: int) -> RegistryV
    decreases raw, 0int, i,
{
    if i <= 0 || i > raw.children@.len() || depth == i32::MAX {
        r
    } else {
        proof {
            broadcast use vstd::std_specs::vec::group_vec_axioms;
            assert(decreases_to!(raw => raw.children));
            assert(decreases_to!(raw.children => raw.children@));
            assert(decreases_to!(raw.children@ => raw.children@[i - 1]));
        }
        let r0 = children_registry(r, raw, vm_id, depth, max_depth, i - 1);
        let c = raw.children@[i - 1];
        if c.context == 0 {
            r0
        } else {
            registry_after(r0, c, vm_id, (depth + 1) as i32, max_depth)
        }
    }
}

/// The fields of node `n` are those of element `raw`, registered at handle `h`.
pub open spec fn fields_from(n: ElementNode, raw: RawElement, vm_id: i32, h: u64) -> bool {
    &&& n.vm_id == vm_id
    &&& n.context == raw.context
    &&& n.handle == h
    &&& n.text@ == Seq::<char>::empty()
    &&& match raw.info {
        Some(i) => {
            &&& n.name@ == trim_nuls(i.name@)
            &&& n.role@ == trim_nuls(i.role@)
            &&& n.description@ == trim_nuls(i.description@)
            &&& n.x == i.x && n.y == i.y && n.width == i.width && n.height == i.height
            &&& n.accessible_action == (i.accessible_action != 0)
            &&& n.accessible_text == (i.accessible_text != 0)
            &&& n.accessible_selection == (i.accessible_selection != 0)
            &&& n.visible_children_count == i.children_count
            &&& n.index_in_parent == i.index_in_parent
        },
        None => {
            &&& n.name@ == Seq::<char>::empty() && n.role@ == Seq::<char>::empty() && n.description@ == Seq::<char>::empty()
            &&& n.x == 0 && n.y == 0 && n.width == 0 && n.height == 0
            &&& !n.accessible_action && !n.accessible_text && !n.accessible_selection
            &&& n.visible_children_count == 0 && n.index_in_parent == 0
        },
    }
}

/// Node `n` is what building element `raw` at `depth` gives on registry `r`: it
/// takes the next handle, and its children are built, in order, from those of the
/// elements read below it that have an object.
pub open spec fn is_built(n: ElementNode, r: RegistryV, raw: RawElement, vm_id: i32, depth: i32, max_depth: Option<i32>) -> bool
    decreases raw, 1int, 0int,
{
    &&& fields_from(n, raw, vm_id, r.next_handle)
    &&& if grows(raw, depth, max_depth) {
        children_built(n.children@, registered(r, vm_id, raw.context), raw, vm_id, depth, max_depth, raw.children@.len() as int)
    } else {
        n.children@.len() == 0
    }
}

/// `built` is what the first `i` children of `raw` (those with an object) give,
/// starting on registry `r`.
pub open spec fn children_built(built: Seq<ElementNode>, r: RegistryV, raw: RawElement, vm_id: i32, depth: i32, max_depth: Option<i32>, i: int) -> bool
    decreases raw, 0int, i,
{
    if i <= 0 || i > raw.children@.len() || depth == i32::MAX {
        built.len() == 0
    } else {
        proof {
            broadcast use vstd::std_specs::vec::group_vec_axioms;
            assert(decreases_to!(raw => raw.children));
            assert(decreases_to!(raw.children => raw.children@));
            assert(decreases_to!(raw.children@ => raw.children@[i - 1]));
        }
        let c = raw.children@[i - 1];
        if c.context == 0 {
            children_built(built, r, raw, vm_id, depth, max_depth, i - 1)
        } else {
            &&& built.len() > 0
            &&& children_built(built.drop_last(), r, raw, vm_id, depth, max_depth, i - 1)
            &&& is_built(built.last(), children_registry(r, raw, vm_id, depth, max_depth, i - 1), c, vm_id, (depth + 1) as i32, max_depth)
        }
    }
}

/// Builds the node of element `raw` at `depth`, registering it and everything built
/// below it.
pub fn build_node(registry: &mut ElementRegistry, vm_id: i32, raw: &RawElement, depth: i32, max_depth: Option<i32>) -> (n: ElementNode)
    ensures
        final(registry)@ == registry_after(old(registry)@, *raw, vm_id, depth, max_depth),
        is_built(n, old(registry)@, *raw, vm_id, depth, max_depth),
    decreases *raw,
{
    let ghost r0 = registry@;
    let handle = registry.register_element(vm_id, raw.context);
    let ghost r1 = registry@;
    let mut node = ElementNode {
        vm_id,
        context: raw.context,
        handle,
        name: String::new(),
        role: String::new(),
        description: String::new(),
        children: Vec::new(),
        text: String::new(),
        x: 0,
        y: 0,
        width: 0,
        height: 0,
        accessible_action: false,
        accessible_text: false,
        accessible_selection: false,
        visible_children_count: 0,
        index_in_parent: 0,
    };
    if let Some(info) = &raw.info {
        node.name = trim_nul_end(info.name.as_str());
        node.role = trim_nul_end(info.role.as_str());
        node.description = trim_nul_end(info.description.as_str());
        node.x = info.x;
        node.y = info.y;
        node.width = info.width;
        node.height = info.height;
        node.accessible_action = info.accessible_action != 0;
        node.accessible_text = info.accessible_text != 0;
        node.accessible_selection = info.accessible_selection != 0;
        node.visible_children_count = info.children_count;
        node.index_in_parent = info.index_in_parent;
    }
    let stopped = depth == i32::MAX || match max_depth {
        Some(m) => depth >= m,
        None => false,
    };
    if stopped || raw.info.is_none() {
        return node;
    }
    let k = raw.children.len();
    let mut children: Vec<ElementNode> = Vec::new();
    let mut i: usize = 0;
    while i < k
        invariant
            0 <= i <= k,
            k == raw.children@.len(),
            depth < i32::MAX,
            registry@ == children_registry(r1, *raw, vm_id, depth, max_depth, i as int),
            children_built(children@, r1, *raw, vm_id, depth, max_depth, i as int),
        decreases k - i,
    {
        proof {
            broadcast use vstd::std_specs::vec::group_vec_axioms;
            assert(decreases_to!(*raw => raw.children));
            assert(decreases_to!(raw.children => raw.children@));
            assert(decreases_to!(raw.children@ => raw.children@[i as int]));
        }
        let c = &raw.children[i];
        if c.context != 0 {
            let ghost before = children@;
            let child = build_node(registry, vm_id, c, depth + 1, max_depth);
            children.push(child);
            assert(children@.drop_last() =~= before);
        }
        i += 1;
    }
    node.children = children;
    node
}

impl ElementTree {
    /// The tree of the window whose root element is `raw` (none when the root has no
    /// object), registering every node built.
    pub fn from_root(raw: &RawElement, vm_id: i32, max_depth: Option<i32>, registry: &mut ElementRegistry) -> (t: ElementTree)
        ensures
            t.max_depth == max_depth,
            raw.context == 0 ==> t.root is None && final(registry)@ == old(registry)@,
            raw.context != 0 ==> (t.root matches Some(n) && is_built(n, old(registry)@, *raw, vm_id, 0, max_depth)
                && final(registry)@ == registry_after(old(registry)@, *raw, vm_id, 0, max_depth)),
    {
        if raw.context == 0 {
            return ElementTree { root: None, max_depth };
        }
        let root = build_node(registry, vm_id, raw, 0, max_depth);
        ElementTree { root: Some(root), max_depth }
    }
}

// ---------------------------------------------------------------------------
// Elements as clients see them

/// An element as reported to clients, with the elements below it.
#[derive(Debug)]
pub struct Element {
    pub handle: u64,
    pub name: String,
    pub role: String,
    pub description: String,
    pub text: String,
    pub x: i32,
    pub y: i32,
    pub width: i32,
    pub height: i32,
    pub accessible_action: bool,
    pub accessible_text: bool,
    pub accessible_selection: bool,
    pub visible_children_count: i32,
    pub index_in_parent: i32,
    pub children: Vec<Element>,
}

/// `e` reports node `n` and, child by child, the nodes below it.
pub open spec fn reports(e: Element, n: ElementNode) -> bool
    decreases n, 1int, 0int,
{
    &&& e.handle == n.handle
    &&& e.name@ == n.name@
    &&& e.role@ == n.role@
    &&& e.description@ == n.description@
    &&& e.text@ == n.text@
    &&& e.x == n.x && e.y == n.y && e.width == n.width && e.height == n.height
    &&& e.accessible_action == n.accessible_action
    &&& e.accessible_text == n.accessible_text
    &&& e.accessible_selection == n.accessible_selection
    &&& e.visible_children_count == n.visible_children_count
    &&& e.index_in_parent == n.index_in_parent
    &&& e.children@.len() == n.children@.len()
    &&& reports_children(e.children@, n, n.children@.len() as int)
}

/// The first `k` of `es` report the first `k` children of `n`.
pub open spec fn reports_children(es: Seq<Element>, n: ElementNode, k: int) -> bool
    decreases n, 0int, k,
{
    if k <= 0 || k > n.children@.len() {
        true
    } else {
        proof {
            broadcast use vstd::std_specs::vec::group_vec_axioms;
            assert(decreases_to!(n => n.children));
            assert(decreases_to!(n.children => n.children@));
            assert(decreases_to!(n.children@ => n.children@[k - 1]));
        }
        reports_children(es, n, k - 1) && k - 1 < es.len() && reports(es[k - 1], n.children@[k - 1])
    }
}

proof fn lemma_reports_children_extend(es: Seq<Element>, e: Element, n: ElementNode, k: int)
    requires
        0 <= k <= es.len(),
        k <= n.children@.len(),
        reports_children(es, n, k),
    ensures
        reports_children(es.push(e), n, k),
    decreases k,
{
    if k > 0 {
        lemma_reports_children_extend(es, e, n, k - 1);
        assert(es.push(e)[k - 1] == es[k - 1]);
    }
}

/// The element that reports `node` and everything below it.
pub fn element_from_context_node(node: &ElementNode) -> (e: Element)
    ensures
        reports(e, *node),
    decreases *node,
{
    let mut children: Vec<Element> = Vec::new();
    let mut i: usize = 0;
    while i < node.children.len()
        invariant
            0 <= i <= node.children@.len(),
            children@.len() == i,
            reports_children(children@, *node, i as int),
        decreases node.children.len() - i,
    {
        proof {
            broadcast use vstd::std_specs::vec::group_vec_axioms;
            assert(decreases_to!(*node => node.children));
            assert(decreases_to!(node.children => node.children@));
            assert(decreases_to!(node.children@ => node.children@[i as int]));
        }
        let c = element_from_context_node(&node.children[i]);
        let ghost before = children@;
        children.push(c);
        proof {
            lemma_reports_children_extend_last(before, c, *node, i as int);
        }
        i += 1;
    }
    Element {
        handle: node.handle,
        name: node.name.clone(),
        role: node.role.clone(),
        description: node.description.clone(),
        text: node.text.clone(),
        x: node.x,
        y: node.y,
        width: node.width,
        height: node.height,
        accessible_action: node.accessible_action,
        accessible_text: node.accessible_text,
        accessible_selection: node.accessible_selection,
        visible_children_count: node.visible_children_count,
        index_in_parent: node.index_in_parent,
        children,
    }
}

proof fn lemma_reports_children_each(es: Seq<Element>, n: ElementNode, k: int)
    requires
        reports_children(es, n, k),
        k <= n.children@.len(),
    ensures
        forall|i: int| 0 <= i < k ==> i < es.len() && #[trigger] reports(es[i], n.children@[i]),
    decreases k,
{
    if k > 0 {
        lemma_reports_children_each(es, n, k - 1);
    }
}

/// The element reported for a node has the node's handle, texts, bounds, flags,
/// child count and index, and as its children, in order and one for one, the
/// elements reported for the node's children.
pub proof fn law_element_mirrors_node(e: Element, n: ElementNode)
    requires
        reports(e, n),
    ensures
        e.handle == n.handle,
        e.name@ == n.name@ && e.role@ == n.role@ && e.description@ == n.description@ && e.text@ == n.text@,
        e.x == n.x && e.y == n.y && e.width == n.width && e.height == n.height,
        e.accessible_action == n.accessible_action && e.accessible_text == n.accessible_text
            && e.accessible_selection == n.accessible_selection,
        e.visible_children_count == n.visible_children_count && e.index_in_parent == n.index_in_parent,
        e.children@.len() == n.children@.len(),
        forall|i: int| 0 <= i < n.children@.len() ==> #[trigger] reports(e.children@[i], n.children@[i]),
{
    lemma_reports_children_each(e.children@, n, n.children@.len() as int);
}

proof fn lemma_reports_children_extend_last(es: Seq<Element>, e: Element, n: ElementNode, k: int)
    requires
        0 <= k < n.children@.len(),
        es.len() == k,
        reports_children(es, n, k),
        reports(e, n.children@[k]),
    ensures
        reports_children(es.push(e), n, k + 1),
{
    lemma_reports_children_extend(es, e, n, k);
    assert(es.push(e)[k] == e);
}

// ---------------------------------------------------------------------------
// Releasing a tree

/// The handles of `n` and of the nodes below it, a node before its children.
pub open spec fn handles_of(n: ElementNode) -> Seq<u64>
    decreases n, 1int, 0int,
{
    seq![n.handle] + handles_of_children(n, n.children@.len() as int)
}

pub open spec fn handles_of_children(n: ElementNode, k: int) -> Seq<u64>
    decreases n, 0int, k,
{
    if k <= 0 || k > n.children@.len() {
        seq![]
    } else {
        proof {
            broadcast use vstd::std_specs::vec::group_vec_axioms;
            assert(decreases_to!(n => n.children));
            assert(decreases_to!(n.children => n.children@));
            assert(decreases_to!(n.children@ => n.children@[k - 1]));
        }
        handles_of_children(n, k - 1) + handles_of(n.children@[k - 1])
    }
}

/// The registry once the handles `hs` are released in turn.
pub open spec fn released_all(r: RegistryV, hs: Seq<u64>) -> RegistryV
    decreases hs.len(),
{
    if hs.len() == 0 {
        r
    } else {
        released(released_all(r, hs.drop_last()), hs.last())
    }
}

/// The objects that releasing the handles `hs` in turn frees.
pub open spec fn freed(r: RegistryV, hs: Seq<u64>) -> Seq<JavaElement>
    decreases hs.len(),
{
    if hs.len() == 0 {
        seq![]
    } else {
        let before = released_all(r, hs.drop_last());
        match lookup(before, hs.last()) {
            Some(e) => freed(r, hs.drop_last()).push(e),
            None => freed(r, hs.drop_last()),
        }
    }
}

/// Releasing handles in turn leaves each of them unregistered and every other
/// handle as it was; what it frees is, handle by handle, the element each had,
/// when it still had one.
pub proof fn law_released_all(r: RegistryV, hs: Seq<u64>)
    ensures
        forall|h: u64| #[trigger] hs.contains(h) ==> lookup(released_all(r, hs), h) is None,
        forall|h: u64| !hs.contains(h) ==> #[trigger] lookup(released_all(r, hs), h) == lookup(r, h),
        freed(r, hs).len() <= hs.len(),
        hs.no_duplicates() ==> freed(r, hs).len() == hs.filter(|h: u64| lookup(r, h) is Some).len(),
    decreases hs.len(),
{
    if hs.len() > 0 {
        let init = hs.drop_last();
        let x = hs.last();
        law_released_all(r, init);
        let before = released_all(r, init);
        assert forall|h: u64| #[trigger] hs.contains(h) implies lookup(released_all(r, hs), h) is None by {
            if h != x {
                crate::registry::law_get_after_release(before, x, h);
                let k = choose|k: int| 0 <= k < hs.len() && hs[k] == h;
                assert(init[k] == h);
                assert(init.contains(h));
            }
        }
        assert forall|h: u64| !hs.contains(h) implies #[trigger] lookup(released_all(r, hs), h) == lookup(r, h) by {
            assert(hs[hs.len() - 1] == x);
            assert(h != x);
            if init.contains(h) {
                let k = choose|k: int| 0 <= k < init.len() && init[k] == h;
                assert(hs[k] == h);
            }
            assert(lookup(before, h) == lookup(r, h));
            crate::registry::law_get_after_release(before, x, h);
        }
        assert(hs =~= init.push(x));
        if hs.no_duplicates() {
            assert(init.no_duplicates()) by {
                assert forall|i: int, j: int| 0 <= i < init.len() && 0 <= j < init.len() && i != j implies init[i] != init[j] by {
                    assert(hs[i] == init[i] && hs[j] == init[j]);
                }
            }
            assert(!init.contains(x)) by {
                if init.contains(x) {
                    let k = choose|k: int| 0 <= k < init.len() && init[k] == x;
                    assert(hs[k] == x && hs[hs.len() - 1] == x);
                }
            }
            assert(lookup(before, x) == lookup(r, x));
            init.lemma_filter_push(x, |h: u64| lookup(r, h) is Some);
        }
    }
}

proof fn lemma_released_all_append(r: RegistryV, a: Seq<u64>, b: Seq<u64>)
    ensures
        released_all(r, a + b) == released_all(released_all(r, a), b),
        freed(r, a + b) == freed(r, a) + freed(released_all(r, a), b),
    decreases b.len(),
{
    if b.len() == 0 {
        assert(a + b =~= a);
        assert(freed(r, a) + seq![] =~= freed(r, a));
    } else {
        lemma_released_all_append(r, a, b.drop_last());
        assert((a + b).drop_last() =~= a + b.drop_last());
        assert((a + b).last() == b.last());
        let inner = released_all(r, a);
        match lookup(released_all(inner, b.drop_last()), b.last()) {
            Some(e) => {
                assert(freed(r, a) + freed(inner, b.drop_last()).push(e) =~= (freed(r, a) + freed(inner, b.drop_last())).push(e));
            },
            None => {},
        }
    }
}

fn release_node(node: &ElementNode, registry: &mut ElementRegistry, out: &mut Vec<JavaElement>)
    ensures
        final(registry)@ == released_all(old(registry)@, handles_of(*node)),
        final(out)@ == old(out)@ + freed(old(registry)@, handles_of(*node)),
    decreases *node,
{
    let ghost r0 = registry@;
    let ghost o0 = out@;
    match registry.release_element(node.handle) {
        Some(e) => out.push(e),
        None => {},
    }
    proof {
        let s0 = seq![node.handle] + handles_of_children(*node, 0);
        assert(s0 =~= seq![node.handle]);
        assert(s0.drop_last() =~= Seq::<u64>::empty());
        assert(s0.last() == node.handle);
        assert(released_all(r0, Seq::<u64>::empty()) == r0);
        assert(freed(r0, Seq::<u64>::empty()) =~= Seq::<JavaElement>::empty());
        assert(released_all(r0, s0) == released(r0, node.handle));
        assert(out@ =~= o0 + freed(r0, s0));
    }
    let mut i: usize = 0;
    while i < node.children.len()
        invariant
            0 <= i <= node.children@.len(),
            registry@ == released_all(r0, seq![node.handle] + handles_of_children(*node, i as int)),
            out@ == o0 + freed(r0, seq![node.handle] + handles_of_children(*node, i as int)),
        decreases node.children.len() - i,
    {
        proof {
            broadcast use vstd::std_specs::vec::group_vec_axioms;
            assert(decreases_to!(*node => node.children));
            assert(decreases_to!(node.children => node.children@));
            assert(decreases_to!(node.children@ => node.children@[i as int]));
        }
        let ghost a = seq![node.handle] + handles_of_children(*node, i as int);
        let ghost b = handles_of(node.children@[i as int]);
        release_node(&node.children[i], registry, out);
        proof {
            lemma_released_all_append(r0, a, b);
            assert(a + b =~= seq![node.handle] + handles_of_children(*node, i + 1));
        }
        i += 1;
    }
}

impl ElementTree {
    /// Releases the handle of every node of the tree, a node before its children, and
    /// gives the objects so freed (to be released to the bridge).
    pub fn release(self, registry: &mut ElementRegistry) -> (freed_objects: Vec<JavaElement>)
        ensures
            match self.root {
                Some(root) => final(registry)@ == released_all(old(registry)@, handles_of(root))
                    && freed_objects@ == freed(old(registry)@, handles_of(root)),
                None => final(registry)@ == old(registry)@ && freed_objects@.len() == 0,
            },
    {
        let mut out: Vec<JavaElement> = Vec::new();
        match &self.root {
            Some(root) => {
                release_node(root, registry, &mut out);
                assert(out@ =~= freed(old(registry)@, handles_of(*root)));
            },
            None => {},
        }
        out
    }
}

} // verus!
