//! Whether a node of a [`ContextTree`] matches a selector.
use vstd::prelude::*;

use crate::context_tree::node::{view_node, ContextNode, NodeHandle, NodeV};
use crate::context_tree::tree::{below, has_node, node, node_ok, tree_wf, ContextTree, TreeV};
use crate::pattern::{regex_finds, regex_is_match};
use crate::selector::ast::{
    view_attr, view_complex, view_compound, view_matcher, view_pseudo, view_selector, view_strings,
    AttrFlags, AttrSelector, AttrV, BoolAttrName, Combinator, ComplexSelector, ComplexV,
    CompoundSelector, CompoundV, IntAttrName, IntOp, MatcherV, PseudoClassSelector, PseudoV, Selector,
    SelectorV, StrAttrName, StrMatcher, StringOp,
};
use crate::text::{
    chars_of, contains_exec, contains_seq, ends_with, ends_with_exec, has_word, has_word_exec,
    join_space, join_space_exec, lowercase, seq_eq, starts_with, starts_with_exec, str_eq, to_lower,
};

verus! {

// ---------------------------------------------------------------------------
// Attributes

/// The string value of an attribute; lists are joined by single spaces.
pub open spec fn string_attr(n: NodeV, name: StrAttrName) -> Seq<char> {
    match name {
        StrAttrName::Name => n.name,
        StrAttrName::Description => n.description,
        StrAttrName::States => join_space(n.states),
        StrAttrName::StatesEnUs => join_space(n.states_en_us),
        StrAttrName::Text => n.text,
        StrAttrName::Actions => join_space(n.actions),
    }
}

pub open spec fn int_attr(n: NodeV, name: IntAttrName) -> i32 {
    match name {
        IntAttrName::X => n.x,
        IntAttrName::Y => n.y,
        IntAttrName::Width => n.width,
        IntAttrName::Height => n.height,
        IntAttrName::ChildrenCount => n.children_count,
        IntAttrName::Depth => n.depth,
    }
}

pub open spec fn bool_attr(n: NodeV, name: BoolAttrName) -> bool {
    match name {
        BoolAttrName::AccessibleAction => n.accessible_action,
        BoolAttrName::AccessibleText => n.accessible_text,
        BoolAttrName::AccessibleSelection => n.accessible_selection,
    }
}

/// A string comparison: a regular expression matches anywhere in the value,
/// ignoring case when the comparison is case-insensitive; a plain string is
/// compared by `op`, both sides lower-cased when the comparison is
/// case-insensitive.
pub open spec fn string_op_holds(value: Seq<char>, op: StringOp, target: MatcherV, flags: AttrFlags) -> bool {
    match target {
        MatcherV::Regex(p) => regex_finds(p, flags.case_insensitive, value),
        MatcherV::Plain(s) => {
            let v = if flags.case_insensitive { lowercase(value) } else { value };
            let t = if flags.case_insensitive { lowercase(s) } else { s };
            match op {
                StringOp::Eq => v == t,
                StringOp::ContainsWord => has_word(v, t),
                StringOp::Starts => starts_with(v, t),
                StringOp::Ends => ends_with(v, t),
                StringOp::Contains => contains_seq(v, t),
            }
        },
    }
}

pub open spec fn int_op_holds(a: int, op: IntOp, b: int) -> bool {
    match op {
        IntOp::Eq => a == b,
        IntOp::Ne => a != b,
        IntOp::Le => a <= b,
        IntOp::Ge => a >= b,
        IntOp::Lt => a < b,
        IntOp::Gt => a > b,
    }
}

pub open spec fn attr_holds(n: NodeV, a: AttrV) -> bool {
    match a {
        AttrV::Str { name, op, value, flags } => string_op_holds(string_attr(n, name), op, value, flags),
        AttrV::Int { name, op, value } => match value {
            Some(v) => int_op_holds(int_attr(n, name) as int, op, v as int),
            None => false,
        },
        AttrV::Bool { name } => bool_attr(n, name),
    }
}

/// A `.state` class holds when the node has that state, in either list of states.
pub open spec fn state_holds(n: NodeV, s: Seq<char>) -> bool {
    n.states.contains(s) || n.states_en_us.contains(s)
}

// ---------------------------------------------------------------------------
// Selectors

/// Bound above every depth and every sibling index (`i32::MAX + 1`).
pub open spec fn depth_bound() -> int {
    0x8000_0000
}

pub open spec fn scope_holds(h: int, rel: Option<int>) -> bool {
    rel matches Some(r) && h == r
}

/// Node `h` matches some alternative among the first `k`.
pub open spec fn any_alternative(t: TreeV, h: int, s: SelectorV, k: int, rel: Option<int>) -> bool
    decreases s, 0int, k,
{
    if k <= 0 || k > s.alternatives.len() {
        false
    } else {
        any_alternative(t, h, s, k - 1, rel) || complex_at(t, h, s.alternatives[k - 1], 0, rel)
    }
}

/// Node `h` matches `s`, with `rel` as the reference element of `:scope`.
pub open spec fn selector_matches(t: TreeV, h: int, s: SelectorV, rel: Option<int>) -> bool
    decreases s, 1int, 0int,
{
    any_alternative(t, h, s, s.alternatives.len() as int, rel)
}

/// Compound `k` of a complex selector: `last` first, then the body in order.
pub open spec fn compound_at(c: ComplexV, k: int) -> CompoundV {
    if k == 0 {
        c.last
    } else {
        c.body[k - 1].0
    }
}

/// The combinator that leads from compound `k` to the next one leftwards: a body
/// combinator, then the head (towards the reference element), then nothing.
pub open spec fn link_at(c: ComplexV, k: int) -> Option<Combinator> {
    if k < c.body.len() {
        Some(c.body[k].1)
    } else if k == c.body.len() {
        c.head
    } else {
        None
    }
}

/// Node `h` matches compound `k` of `c` and, through the combinators to its left,
/// the rest of `c`.  Past the body, a head combinator leads to the reference element
/// itself (`:scope`).
pub open spec fn complex_at(t: TreeV, h: int, c: ComplexV, k: int, rel: Option<int>) -> bool
    decreases c, c.body.len() + 2 - k, depth_bound(),
{
    if k < 0 || k > c.body.len() + 1 {
        false
    } else {
        let here = if k <= c.body.len() {
            proof {
                if k > 0 {
                    assert(decreases_to!(c => c.body));
                    assert(decreases_to!(c.body => c.body[k - 1]));
                    assert(decreases_to!(c.body[k - 1] => c.body[k - 1].0));
                }
            }
            compound_matches(t, h, compound_at(c, k), rel)
        } else {
            scope_holds(h, rel)
        };
        here && match link_at(c, k) {
            None => true,
            Some(Combinator::Child) => {
                let n = node(t, h);
                n.parent matches Some(p) && has_node(t, p as int) && complex_at(t, p as int, c, k + 1, rel)
            },
            Some(Combinator::Descendant) => node(t, h).depth > 0 && some_ancestor(t, h, c, k, rel),
            Some(Combinator::NextSibling) => {
                let n = node(t, h);
                match n.parent {
                    Some(p) => {
                        let i = n.index_in_parent - 1;
                        has_node(t, p as int) && 0 <= i < node(t, p as int).children.len() && {
                            let sib = node(t, p as int).children[i] as int;
                            has_node(t, sib) && complex_at(t, sib, c, k + 1, rel)
                        }
                    },
                    None => false,
                }
            },
            Some(Combinator::SubsequentSibling) => {
                let n = node(t, h);
                match n.parent {
                    Some(p) => has_node(t, p as int) && n.index_in_parent > 0 && some_prev_sibling(
                        t,
                        p as int,
                        c,
                        k,
                        rel,
                        n.index_in_parent as int,
                    ),
                    None => false,
                }
            },
        }
    }
}

/// A proper ancestor of `cur` matches compound `k + 1` of `c` onwards.
pub open spec fn some_ancestor(t: TreeV, cur: int, c: ComplexV, k: int, rel: Option<int>) -> bool
    decreases c, c.body.len() + 2 - k, node(t, cur).depth,
{
    let n = node(t, cur);
    if !has_node(t, cur) || n.depth <= 0 || k < 0 || k > c.body.len() {
        false
    } else {
        match n.parent {
            Some(p) => if has_node(t, p as int) && 0 <= node(t, p as int).depth < n.depth {
                complex_at(t, p as int, c, k + 1, rel) || some_ancestor(t, p as int, c, k, rel)
            } else {
                false
            },
            None => false,
        }
    }
}

/// One of the first `m` children of `p` matches compound `k + 1` of `c` onwards.
pub open spec fn some_prev_sibling(t: TreeV, p: int, c: ComplexV, k: int, rel: Option<int>, m: int) -> bool
    decreases c, c.body.len() + 2 - k, m,
{
    if m <= 0 || m > i32::MAX || k < 0 || k > c.body.len() {
        false
    } else {
        some_prev_sibling(t, p, c, k, rel, m - 1) || {
            let kids = node(t, p).children;
            m - 1 < kids.len() && has_node(t, kids[m - 1] as int) && complex_at(t, kids[m - 1] as int, c, k + 1, rel)
        }
    }
}

/// Node `h` has the role (compared without regard to case), states, attributes and
/// pseudo-classes of `comp`.
pub open spec fn compound_matches(t: TreeV, h: int, comp: CompoundV, rel: Option<int>) -> bool
    decreases comp, 1int, 0int,
{
    let n = node(t, h);
    &&& (comp.role matches Some(r) ==> lowercase(n.role) == lowercase(r))
    &&& (forall|i: int| 0 <= i < comp.states.len() ==> state_holds(n, #[trigger] comp.states[i]))
    &&& (forall|i: int| 0 <= i < comp.attrs.len() ==> attr_holds(n, #[trigger] comp.attrs[i]))
    &&& all_pseudos(t, h, comp, comp.pseudo_classes.len() as int, rel)
}

/// Node `h` satisfies the first `k` pseudo-classes of `comp`.
pub open spec fn all_pseudos(t: TreeV, h: int, comp: CompoundV, k: int, rel: Option<int>) -> bool
    decreases comp, 0int, k,
{
    if k <= 0 || k > comp.pseudo_classes.len() {
        true
    } else {
        all_pseudos(t, h, comp, k - 1, rel) && pseudo_matches(t, h, comp.pseudo_classes[k - 1], rel)
    }
}

/// Whether some alternative of `s` starts with a sibling combinator.
pub open spec fn has_sibling_head(s: SelectorV) -> bool {
    exists|i: int| 0 <= i < s.alternatives.len() && (#[trigger] s.alternatives[i].head matches Some(c) && (c == Combinator::NextSibling || c == Combinator::SubsequentSibling))
}

/// The nodes `:has()` looks at: those below the parent when a sibling combinator
/// leads, else those below the node itself.
pub open spec fn has_candidates(t: TreeV, h: int, s: SelectorV) -> Seq<NodeHandle> {
    let n = node(t, h);
    if has_sibling_head(s) && n.parent is Some && has_node(t, n.parent->0 as int) {
        below(t, node(t, n.parent->0 as int))
    } else {
        below(t, n)
    }
}

/// One of the first `k` candidates matches the selector of `:has()` `p`, anchored at
/// `subject`.
pub open spec fn some_candidate(t: TreeV, p: PseudoV, cands: Seq<NodeHandle>, k: int, subject: int) -> bool
    decreases p, 0int, k,
{
    if k <= 0 || k > cands.len() {
        false
    } else {
        some_candidate(t, p, cands, k - 1, subject) || match p {
            PseudoV::Has(s) => has_node(t, cands[k - 1] as int) && selector_matches(t, cands[k - 1] as int, s, Some(subject)),
            _ => false,
        }
    }
}

pub open spec fn pseudo_matches(t: TreeV, h: int, p: PseudoV, rel: Option<int>) -> bool
    decreases p, 1int, 0int,
{
    let n = node(t, h);
    match p {
        PseudoV::Scope => scope_holds(h, rel),
        PseudoV::Has(s) => {
            let cands = has_candidates(t, h, s);
            some_candidate(t, p, cands, cands.len() as int, h)
        },
        PseudoV::Not(s) => !selector_matches(t, h, s, rel),
        PseudoV::RequireState(s) => n.states_en_us.contains(s),
        PseudoV::ExcludeState(s) => !n.states_en_us.contains(s),
        PseudoV::NthChild(k) => n.index_in_parent + 1 == k,
        PseudoV::NthLastChild(k) => match n.parent {
            None => k == 1,
            Some(ph) => has_node(t, ph as int) && node(t, ph as int).children_count - n.index_in_parent == k,
        },
    }
}

// ---------------------------------------------------------------------------
// Executable matching

/// Compares two integers by `op`.
pub fn match_int_op(node_value: i32, op: IntOp, target: i32) -> (r: bool)
    ensures
        r == int_op_holds(node_value as int, op, target as int),
{
    match op {
        IntOp::Eq => node_value == target,
        IntOp::Ne => node_value != target,
        IntOp::Le => node_value <= target,
        IntOp::Ge => node_value >= target,
        IntOp::Lt => node_value < target,
        IntOp::Gt => node_value > target,
    }
}

/// Compares a string value with the target of a string attribute selector.
pub fn match_string_op(value: &str, op: StringOp, target: &StrMatcher, flags: &AttrFlags) -> (r: bool)
    ensures
        r == string_op_holds(value@, op, view_matcher(*target), *flags),
{
    match target {
        StrMatcher::Regex(p) => regex_is_match(p.as_str(), flags.case_insensitive, value),
        StrMatcher::Plain(s) => {
            let (v, t) = if flags.case_insensitive {
                let lv = to_lower(value);
                let lt = to_lower(s.as_str());
                (chars_of(lv.as_str()), chars_of(lt.as_str()))
            } else {
                (chars_of(value), chars_of(s.as_str()))
            };
            match op {
                StringOp::Eq => seq_eq(&v, &t),
                StringOp::ContainsWord => has_word_exec(&v, &t),
                StringOp::Starts => starts_with_exec(&v, &t),
                StringOp::Ends => ends_with_exec(&v, &t),
                StringOp::Contains => contains_exec(&v, &t),
            }
        },
    }
}

/// The string value of attribute `name` of a node.
pub fn get_string_attr(node: &ContextNode, name: StrAttrName) -> (r: String)
    ensures
        r@ == string_attr(view_node(*node), name),
{
    match name {
        StrAttrName::Name => node.name.clone(),
        StrAttrName::Description => node.description.clone(),
        StrAttrName::States => join_space_exec(&node.states),
        StrAttrName::StatesEnUs => join_space_exec(&node.states_en_us),
        StrAttrName::Text => node.text.clone(),
        StrAttrName::Actions => join_space_exec(&node.actions),
    }
}

pub fn get_int_attr(node: &ContextNode, name: IntAttrName) -> (r: i32)
    ensures
        r == int_attr(view_node(*node), name),
{
    match name {
        IntAttrName::X => node.x,
        IntAttrName::Y => node.y,
        IntAttrName::Width => node.width,
        IntAttrName::Height => node.height,
        IntAttrName::ChildrenCount => node.children_count,
        IntAttrName::Depth => node.depth,
    }
}

pub fn get_bool_attr(node: &ContextNode, name: BoolAttrName) -> (r: bool)
    ensures
        r == bool_attr(view_node(*node), name),
{
    match name {
        BoolAttrName::AccessibleAction => node.accessible_action,
        BoolAttrName::AccessibleText => node.accessible_text,
        BoolAttrName::AccessibleSelection => node.accessible_selection,
    }
}

/// Whether a node satisfies an attribute selector.
pub fn matches_attribute(node: &ContextNode, attr: &AttrSelector) -> (r: bool)
    ensures
        r == attr_holds(view_node(*node), view_attr(*attr)),
{
    match attr {
        AttrSelector::Str { name, op, value, flags } => {
            let v = get_string_attr(node, *name);
            match_string_op(v.as_str(), *op, value, flags)
        },
        AttrSelector::Int { name, op, value } => match value {
            Some(target) => match_int_op(get_int_attr(node, *name), *op, *target),
            None => false,
        },
        AttrSelector::Bool { name } => get_bool_attr(node, *name),
    }
}

/// Whether `s` is one of `list`.
fn list_contains(list: &Vec<String>, s: &String) -> (r: bool)
    ensures
        r == view_strings(list@).contains(s@),
{
    let mut i: usize = 0;
    while i < list.len()
        invariant
            0 <= i <= list@.len(),
            forall|j: int| 0 <= j < i ==> view_strings(list@)[j] != s@,
        decreases list.len() - i,
    {
        if str_eq(list[i].as_str(), s.as_str()) {
            assert(view_strings(list@)[i as int] == s@);
            return true;
        }
        i += 1;
    }
    false
}

/// `:nth-child(n)`: the node is the `n`-th child of its parent, counting from 1.
pub fn matches_nth_child(node: &ContextNode, n: i32) -> (r: bool)
    ensures
        r == (node.index_in_parent + 1 == n),
{
    node.index_in_parent as i64 + 1 == n as i64
}

/// `:nth-last-child(n)`: the node is the `n`-th child of its parent counting from the
/// end (by the parent's child count); a node without parent is its own only child.
pub fn matches_nth_last_child(tree: &ContextTree, child: &ContextNode, n: i32) -> (r: bool)
    ensures
        r == match child.parent {
            None => n == 1,
            Some(ph) => has_node(tree@, ph as int) && node(tree@, ph as int).children_count - child.index_in_parent == n,
        },
{
    match child.parent {
        None => n == 1,
        Some(ph) => match tree.get(ph) {
            Some(parent) => parent.children_count as i64 - child.index_in_parent as i64 == n as i64,
            None => false,
        },
    }
}

pub open spec fn is_node_of(tree: TreeV, n: ContextNode) -> bool {
    has_node(tree, n.handle as int) && view_node(n) == node(tree, n.handle as int)
}

pub open spec fn rel_handle(r: Option<&ContextNode>) -> Option<int> {
    match r {
        Some(n) => Some(n.handle as int),
        None => None,
    }
}

/// Whether `node` matches `selector` in `tree`, with `relative_to` as the reference
/// element of `:scope` and relative selectors.
pub fn matches_selector(
    node: &ContextNode,
    selector: &Selector,
    relative_to: Option<&ContextNode>,
    tree: &ContextTree,
) -> (r: bool)
    requires
        is_node_of(tree@, *node),
    ensures
        r == selector_matches(tree@, node.handle as int, view_selector(*selector), rel_handle(relative_to)),
{
    let rel = match relative_to {
        Some(n) => Some(n.handle),
        None => None,
    };
    selector_matches_at(tree, node.handle, selector, rel)
}

pub open spec fn rel_int(r: Option<NodeHandle>) -> Option<int> {
    match r {
        Some(h) => Some(h as int),
        None => None,
    }
}

fn the_node(tree: &ContextTree, h: NodeHandle) -> (n: &ContextNode)
    requires
        has_node(tree@, h as int),
    ensures
        view_node(*n) == node(tree@, h as int),
{
    tree.get(h).unwrap()
}

#[verifier::loop_isolation(false)]
fn selector_matches_at(tree: &ContextTree, h: NodeHandle, s: &Selector, rel: Option<NodeHandle>) -> (r: bool)
    requires
        has_node(tree@, h as int),
    ensures
        r == selector_matches(tree@, h as int, view_selector(*s), rel_int(rel)),
    decreases *s, 1int, 0int,
{
    let ghost sv = view_selector(*s);
    let len = s.alternatives.len();
    let mut i: usize = len;
    while i > 0
        invariant
            0 <= i <= len,
            any_alternative(tree@, h as int, sv, len as int, rel_int(rel))
                == any_alternative(tree@, h as int, sv, i as int, rel_int(rel)),
        decreases i,
    {
        proof {
            broadcast use vstd::std_specs::vec::group_vec_axioms;
            assert(decreases_to!(*s => s.alternatives));
            assert(decreases_to!(s.alternatives => s.alternatives@));
            assert(decreases_to!(s.alternatives@ => s.alternatives@[i - 1]));
        }
        assert(sv.alternatives[i - 1] == view_complex(s.alternatives@[i - 1]));
        if complex_at_exec(tree, h, &s.alternatives[i - 1], 0, rel) {
            return true;
        }
        i -= 1;
    }
    false
}

/// Node `x` matches compound `k + 1` of `c` onwards (the reference element itself
/// once the body is used up).
fn next_matches(tree: &ContextTree, x: NodeHandle, c: &ComplexSelector, k: usize, rel: Option<NodeHandle>) -> (r: bool)
    requires
        has_node(tree@, x as int),
        k <= c.body@.len(),
    ensures
        r == complex_at(tree@, x as int, view_complex(*c), k + 1, rel_int(rel)),
    decreases *c, c.body@.len() + 2 - k, 0int,
{
    if k == c.body.len() {
        match rel {
            Some(r) => r == x,
            None => false,
        }
    } else {
        complex_at_exec(tree, x, c, k + 1, rel)
    }
}

#[verifier::loop_isolation(false)]
fn complex_at_exec(tree: &ContextTree, h: NodeHandle, c: &ComplexSelector, k: usize, rel: Option<NodeHandle>) -> (r: bool)
    requires
        has_node(tree@, h as int),
        k <= c.body@.len(),
    ensures
        r == complex_at(tree@, h as int, view_complex(*c), k as int, rel_int(rel)),
    decreases *c, c.body@.len() + 2 - k, depth_bound(),
{
    let ghost t = tree@;
    let ghost cv = view_complex(*c);
    let n = the_node(tree, h);
    let here = if k == 0 {
        compound_matches_exec(tree, h, &c.last, rel)
    } else {
        proof {
            broadcast use vstd::std_specs::vec::group_vec_axioms;
            assert(decreases_to!(*c => c.body));
            assert(decreases_to!(c.body => c.body@));
            assert(decreases_to!(c.body@ => c.body@[k - 1]));
            assert(decreases_to!(c.body@[k - 1] => c.body@[k - 1].0));
        }
        compound_matches_exec(tree, h, &c.body[k - 1].0, rel)
    };
    if !here {
        return false;
    }
    let link = if k < c.body.len() {
        Some(c.body[k].1)
    } else {
        c.head
    };
    assert(link == link_at(cv, k as int));
    match link {
        None => true,
        Some(Combinator::Child) => match n.parent {
            Some(p) => {
                if tree.get(p).is_some() {
                    next_matches(tree, p, c, k, rel)
                } else {
                    false
                }
            },
            None => false,
        },
        Some(Combinator::Descendant) => {
            if n.depth <= 0 {
                return false;
            }
            let mut cur = h;
            loop
                invariant
                    has_node(t, cur as int),
                    complex_at(t, h as int, cv, k as int, rel_int(rel))
                        == some_ancestor(t, cur as int, cv, k as int, rel_int(rel)),
                decreases node(t, cur as int).depth,
            {
                let cn = the_node(tree, cur);
                if cn.depth <= 0 {
                    return false;
                }
                let p = match cn.parent {
                    Some(p) => p,
                    None => { return false; },
                };
                match tree.get(p) {
                    Some(pn) => {
                        if pn.depth < 0 || pn.depth >= cn.depth {
                            return false;
                        }
                    },
                    None => {
                        return false;
                    },
                }
                if next_matches(tree, p, c, k, rel) {
                    return true;
                }
                cur = p;
            }
        },
        Some(Combinator::NextSibling) => match n.parent {
            Some(p) => match tree.get(p) {
                Some(pn) => {
                    let idx = n.index_in_parent;
                    if idx < 1 {
                        return false;
                    }
                    let i = (idx - 1) as usize;
                    if i >= pn.children.len() {
                        return false;
                    }
                    let sib = pn.children[i];
                    if tree.get(sib).is_some() {
                        next_matches(tree, sib, c, k, rel)
                    } else {
                        false
                    }
                },
                None => false,
            },
            None => false,
        },
        Some(Combinator::SubsequentSibling) => match n.parent {
            Some(p) => match tree.get(p) {
                Some(pn) => {
                    let limit = n.index_in_parent;
                    if limit <= 0 {
                        return false;
                    }
                    let mut j: i32 = limit;
                    while j > 0
                        invariant
                            0 <= j <= limit,
                            complex_at(t, h as int, cv, k as int, rel_int(rel))
                                == some_prev_sibling(t, p as int, cv, k as int, rel_int(rel), j as int),
                        decreases j,
                    {
                        let ju = (j - 1) as usize;
                        if ju < pn.children.len() {
                            let sib = pn.children[ju];
                            if tree.get(sib).is_some() {
                                if next_matches(tree, sib, c, k, rel) {
                                    return true;
                                }
                            }
                        }
                        j -= 1;
                    }
                    false
                },
                None => false,
            },
            None => false,
        },
    }
}

proof fn lemma_all_pseudos(t: TreeV, h: int, comp: CompoundV, k: int, rel: Option<int>)
    requires
        0 <= k <= comp.pseudo_classes.len(),
    ensures
        all_pseudos(t, h, comp, k, rel) <==> forall|j: int| 0 <= j < k ==> pseudo_matches(t, h, #[trigger] comp.pseudo_classes[j], rel),
    decreases k,
{
    if k > 0 {
        lemma_all_pseudos(t, h, comp, k - 1, rel);
    }
}

fn is_state_pseudo(p: &PseudoClassSelector) -> (r: bool)
    ensures
        r == (view_pseudo(*p) is RequireState || view_pseudo(*p) is ExcludeState),
{
    match p {
        PseudoClassSelector::RequireState(_) | PseudoClassSelector::ExcludeState(_) => true,
        _ => false,
    }
}

#[verifier::loop_isolation(false)]
fn compound_matches_exec(tree: &ContextTree, h: NodeHandle, comp: &CompoundSelector, rel: Option<NodeHandle>) -> (r: bool)
    requires
        has_node(tree@, h as int),
    ensures
        r == compound_matches(tree@, h as int, view_compound(*comp), rel_int(rel)),
    decreases *comp, 1int, 0int,
{
    let ghost t = tree@;
    let ghost cv = view_compound(*comp);
    let n = the_node(tree, h);
    let ghost nv = node(t, h as int);
    proof { lemma_all_pseudos(t, h as int, cv, cv.pseudo_classes.len() as int, rel_int(rel)); }
    if let Some(role) = &comp.role {
        let have = to_lower(n.role.as_str());
        let want = to_lower(role.as_str());
        if !str_eq(have.as_str(), want.as_str()) {
            return false;
        }
    }
    let np = comp.pseudo_classes.len();
    // The state pseudo-classes are cheap: test them first.
    let mut i: usize = 0;
    while i < np
        invariant
            0 <= i <= np,
            forall|j: int| 0 <= j < i && (cv.pseudo_classes[j] is RequireState || cv.pseudo_classes[j] is ExcludeState)
                ==> pseudo_matches(t, h as int, #[trigger] cv.pseudo_classes[j], rel_int(rel)),
        decreases np - i,
    {
        assert(cv.pseudo_classes[i as int] == view_pseudo(comp.pseudo_classes@[i as int]));
        if is_state_pseudo(&comp.pseudo_classes[i]) {
            proof {
                broadcast use vstd::std_specs::vec::group_vec_axioms;
                assert(decreases_to!(*comp => comp.pseudo_classes));
                assert(decreases_to!(comp.pseudo_classes => comp.pseudo_classes@));
                assert(decreases_to!(comp.pseudo_classes@ => comp.pseudo_classes@[i as int]));
            }
            if !pseudo_matches_exec(tree, h, &comp.pseudo_classes[i], rel) {
                return false;
            }
        }
        i += 1;
    }
    // `.state` classes
    let mut i: usize = 0;
    while i < comp.states.len()
        invariant
            0 <= i <= comp.states@.len(),
            forall|j: int| 0 <= j < i ==> state_holds(nv, #[trigger] cv.states[j]),
        decreases comp.states.len() - i,
    {
        if !list_contains(&n.states, &comp.states[i]) && !list_contains(&n.states_en_us, &comp.states[i]) {
            assert(!state_holds(nv, cv.states[i as int]));
            return false;
        }
        i += 1;
    }
    // attributes
    let mut i: usize = 0;
    while i < comp.attrs.len()
        invariant
            0 <= i <= comp.attrs@.len(),
            forall|j: int| 0 <= j < i ==> attr_holds(nv, #[trigger] cv.attrs[j]),
        decreases comp.attrs.len() - i,
    {
        if !matches_attribute(n, &comp.attrs[i]) {
            assert(!attr_holds(nv, cv.attrs[i as int]));
            return false;
        }
        i += 1;
    }
    // the other pseudo-classes
    let mut i: usize = 0;
    while i < np
        invariant
            0 <= i <= np,
            forall|j: int| 0 <= j < np && (cv.pseudo_classes[j] is RequireState || cv.pseudo_classes[j] is ExcludeState)
                ==> pseudo_matches(t, h as int, #[trigger] cv.pseudo_classes[j], rel_int(rel)),
            forall|j: int| 0 <= j < i ==> pseudo_matches(t, h as int, #[trigger] cv.pseudo_classes[j], rel_int(rel)),
        decreases np - i,
    {
        assert(cv.pseudo_classes[i as int] == view_pseudo(comp.pseudo_classes@[i as int]));
        if !is_state_pseudo(&comp.pseudo_classes[i]) {
            proof {
                broadcast use vstd::std_specs::vec::group_vec_axioms;
                assert(decreases_to!(*comp => comp.pseudo_classes));
                assert(decreases_to!(comp.pseudo_classes => comp.pseudo_classes@));
                assert(decreases_to!(comp.pseudo_classes@ => comp.pseudo_classes@[i as int]));
            }
            if !pseudo_matches_exec(tree, h, &comp.pseudo_classes[i], rel) {
                return false;
            }
        }
        i += 1;
    }
    true
}

/// Whether some alternative of `s` starts with a sibling combinator.
fn sibling_head(s: &Selector) -> (r: bool)
    ensures
        r == has_sibling_head(view_selector(*s)),
{
    let ghost sv = view_selector(*s);
    let mut i: usize = 0;
    while i < s.alternatives.len()
        invariant
            sv == view_selector(*s),
            0 <= i <= s.alternatives@.len(),
            forall|j: int| 0 <= j < i ==> !(#[trigger] sv.alternatives[j].head matches Some(c) && (c == Combinator::NextSibling || c == Combinator::SubsequentSibling)),
        decreases s.alternatives.len() - i,
    {
        assert(sv.alternatives[i as int].head == s.alternatives@[i as int].head);
        match s.alternatives[i].head {
            Some(Combinator::NextSibling) | Some(Combinator::SubsequentSibling) => {
                return true;
            },
            _ => {},
        }
        i += 1;
    }
    false
}

#[verifier::loop_isolation(false)]
fn pseudo_matches_exec(tree: &ContextTree, h: NodeHandle, p: &PseudoClassSelector, rel: Option<NodeHandle>) -> (r: bool)
    requires
        has_node(tree@, h as int),
    ensures
        r == pseudo_matches(tree@, h as int, view_pseudo(*p), rel_int(rel)),
    decreases *p, 1int, 0int,
{
    let ghost t = tree@;
    let n = the_node(tree, h);
    match p {
        PseudoClassSelector::Scope => match rel {
            Some(r) => r == h,
            None => false,
        },
        PseudoClassSelector::Has(s) => {
            let ghost sv = view_selector(**s);
            let sib_head = sibling_head(s);
            let base = match n.parent {
                Some(ph) => if sib_head && tree.get(ph).is_some() { ph } else { h },
                None => h,
            };
            let base_node = the_node(tree, base);
            let cands = tree.subtree(base_node);
            assert(cands@ == has_candidates(t, h as int, sv));
            let mut k: usize = cands.len();
            while k > 0
                invariant
                    0 <= k <= cands@.len(),
                    some_candidate(t, view_pseudo(*p), cands@, cands@.len() as int, h as int)
                        == some_candidate(t, view_pseudo(*p), cands@, k as int, h as int),
                decreases k,
            {
                let cand = cands[k - 1];
                if tree.get(cand).is_some() {
                    proof {
                        assert(decreases_to!(*p => **s));
                    }
                    if selector_matches_at(tree, cand, s, Some(h)) {
                        return true;
                    }
                }
                k -= 1;
            }
            false
        },
        PseudoClassSelector::Not(s) => {
            proof {
                assert(decreases_to!(*p => **s));
            }
            !selector_matches_at(tree, h, s, rel)
        },
        PseudoClassSelector::RequireState(s) => list_contains(&n.states_en_us, s),
        PseudoClassSelector::ExcludeState(s) => !list_contains(&n.states_en_us, s),
        PseudoClassSelector::NthChild(k) => matches_nth_child(n, *k),
        PseudoClassSelector::NthLastChild(k) => matches_nth_last_child(tree, n, *k),
    }
}

// ---------------------------------------------------------------------------
// Queries on a tree

/// The handles, in increasing order below `k`, of the nodes that match `s`.
pub open spec fn matching_below(t: TreeV, s: SelectorV, k: int) -> Seq<NodeHandle>
    decreases k,
{
    if k <= 0 {
        seq![]
    } else if has_node(t, k - 1) && selector_matches(t, k - 1, s, None) {
        matching_below(t, s, k - 1).push((k - 1) as NodeHandle)
    } else {
        matching_below(t, s, k - 1)
    }
}

/// The handles, in increasing order, of the nodes of the tree that match `s`.
pub open spec fn matching(t: TreeV, s: SelectorV) -> Seq<NodeHandle> {
    matching_below(t, s, t.len() as int)
}

impl ContextTree {
    /// Whether `node`, a node of this tree, matches `selector`.
    pub fn node_matches(&self, node: &ContextNode, selector: &Selector) -> (r: bool)
        requires
            is_node_of(self@, *node),
        ensures
            r == selector_matches(self@, node.handle as int, view_selector(*selector), None),
    {
        matches_selector(node, selector, None, self)
    }

    /// The nodes that match `selector`, in the order of their handles.
    pub fn get_nodes(&self, selector: &Selector) -> (r: Vec<&ContextNode>)
        ensures
            r@.len() == matching(self@, view_selector(*selector)).len(),
            forall|i: int| 0 <= i < r@.len() ==> #[trigger] view_node(*r@[i]) == node(self@, matching(self@, view_selector(*selector))[i] as int),
    {
        let ghost t = self@;
        let ghost sv = view_selector(*selector);
        let mut out: Vec<&ContextNode> = Vec::new();
        let mut h: usize = 0;
        while h < self.nodes.len()
            invariant
                t == self@,
                sv == view_selector(*selector),
                0 <= h <= t.len(),
                t.len() == self.nodes@.len(),
                out@.len() == matching_below(t, sv, h as int).len(),
                forall|i: int| 0 <= i < out@.len() ==> #[trigger] view_node(*out@[i]) == node(t, matching_below(t, sv, h as int)[i] as int),
            decreases self.nodes.len() - h,
        {
            let ghost before = out@;
            match &self.nodes[h] {
                Some(n) => {
                    assert(has_node(t, h as int));
                    if selector_matches_at(self, h as NodeHandle, selector, None) {
                        out.push(n);
                    }
                },
                None => {},
            }
            assert forall|i: int| 0 <= i < out@.len() implies #[trigger] view_node(*out@[i]) == node(t, matching_below(t, sv, h + 1)[i] as int) by {
                if i < before.len() {
                    assert(out@[i] == before[i]);
                }
            }
            h += 1;
        }
        out
    }

    /// The first node, in the order of handles, that matches `selector`, if any.
    pub fn get_node(&self, selector: &Selector) -> (r: Option<&ContextNode>)
        ensures
            match r {
                Some(n) => matching(self@, view_selector(*selector)).len() > 0
                    && view_node(*n) == node(self@, matching(self@, view_selector(*selector))[0] as int),
                None => matching(self@, view_selector(*selector)).len() == 0,
            },
    {
        let ghost t = self@;
        let ghost sv = view_selector(*selector);
        let mut h: usize = 0;
        while h < self.nodes.len()
            invariant
                t == self@,
                sv == view_selector(*selector),
                0 <= h <= t.len(),
                t.len() == self.nodes@.len(),
                matching_below(t, sv, h as int).len() == 0,
            decreases self.nodes.len() - h,
        {
            match &self.nodes[h] {
                Some(n) => {
                    assert(has_node(t, h as int));
                    if selector_matches_at(self, h as NodeHandle, selector, None) {
                        proof { lemma_matching_first(t, sv, h as int, t.len() as int); }
                        return Some(n);
                    }
                },
                None => {},
            }
            h += 1;
        }
        None
    }
}

/// When no handle below `h` matches and `h` does, `h` comes first among the
/// matching handles below any `k > h`.
proof fn lemma_matching_first(t: TreeV, s: SelectorV, h: int, k: int)
    requires
        0 <= h < k,
        matching_below(t, s, h).len() == 0,
        has_node(t, h),
        selector_matches(t, h, s, None),
    ensures
        matching_below(t, s, k).len() > 0,
        matching_below(t, s, k)[0] == h as NodeHandle,
    decreases k,
{
    if k > h + 1 {
        lemma_matching_first(t, s, h, k - 1);
    }
}

// ---------------------------------------------------------------------------
// Laws of matching

proof fn lemma_any_alternative(t: TreeV, h: int, s: SelectorV, k: int, rel: Option<int>)
    requires
        0 <= k <= s.alternatives.len(),
    ensures
        any_alternative(t, h, s, k, rel) <==> exists|i: int| 0 <= i < k && #[trigger] complex_at(t, h, s.alternatives[i], 0, rel),
    decreases k,
{
    if k > 0 {
        lemma_any_alternative(t, h, s, k - 1, rel);
        if complex_at(t, h, s.alternatives[k - 1], 0, rel) {
            assert(exists|i: int| 0 <= i < k && #[trigger] complex_at(t, h, s.alternatives[i], 0, rel));
        }
    }
}

/// A node matches a list of alternatives exactly when it matches one of them.
pub proof fn law_alternatives_any(t: TreeV, h: int, s: SelectorV, rel: Option<int>)
    ensures
        selector_matches(t, h, s, rel) <==> exists|i: int| 0 <= i < s.alternatives.len() && #[trigger] complex_at(t, h, s.alternatives[i], 0, rel),
{
    lemma_any_alternative(t, h, s, s.alternatives.len() as int, rel);
}

/// Adding `:not(s)` to a compound keeps the nodes that match the compound and not `s`.
pub proof fn law_not_negates(t: TreeV, h: int, comp: CompoundV, s: SelectorV, rel: Option<int>)
    ensures
        compound_matches(t, h, CompoundV { pseudo_classes: comp.pseudo_classes.push(PseudoV::Not(s)), ..comp }, rel)
            <==> compound_matches(t, h, comp, rel) && !selector_matches(t, h, s, rel),
{
    let with = CompoundV { pseudo_classes: comp.pseudo_classes.push(PseudoV::Not(s)), ..comp };
    let k = comp.pseudo_classes.len() as int;
    lemma_all_pseudos(t, h, comp, k, rel);
    lemma_all_pseudos(t, h, with, k, rel);
    assert forall|j: int| 0 <= j < k implies with.pseudo_classes[j] == comp.pseudo_classes[j] by {}
    assert(all_pseudos(t, h, with, k, rel) == all_pseudos(t, h, comp, k, rel)) by {
        if all_pseudos(t, h, comp, k, rel) {
            assert forall|j: int| 0 <= j < k implies pseudo_matches(t, h, #[trigger] with.pseudo_classes[j], rel) by {
                assert(with.pseudo_classes[j] == comp.pseudo_classes[j]);
            }
        }
        if all_pseudos(t, h, with, k, rel) {
            assert forall|j: int| 0 <= j < k implies pseudo_matches(t, h, #[trigger] comp.pseudo_classes[j], rel) by {
                assert(with.pseudo_classes[j] == comp.pseudo_classes[j]);
                assert(pseudo_matches(t, h, with.pseudo_classes[j], rel));
            }
        }
    }
    assert(with.pseudo_classes[k] == PseudoV::Not(s));
    assert(all_pseudos(t, h, with, k + 1, rel) == (all_pseudos(t, h, with, k, rel) && pseudo_matches(t, h, PseudoV::Not(s), rel)));
    assert(pseudo_matches(t, h, PseudoV::Not(s), rel) == !selector_matches(t, h, s, rel));
    assert(with.pseudo_classes.len() == k + 1);
    assert(compound_matches(t, h, with, rel) == (
        (with.role matches Some(r) ==> lowercase(node(t, h).role) == lowercase(r))
        && (forall|i: int| 0 <= i < with.states.len() ==> state_holds(node(t, h), #[trigger] with.states[i]))
        && (forall|i: int| 0 <= i < with.attrs.len() ==> attr_holds(node(t, h), #[trigger] with.attrs[i]))
        && all_pseudos(t, h, with, k + 1, rel)));
    assert(compound_matches(t, h, comp, rel) == (
        (comp.role matches Some(r) ==> lowercase(node(t, h).role) == lowercase(r))
        && (forall|i: int| 0 <= i < comp.states.len() ==> state_holds(node(t, h), #[trigger] comp.states[i]))
        && (forall|i: int| 0 <= i < comp.attrs.len() ==> attr_holds(node(t, h), #[trigger] comp.attrs[i]))
        && all_pseudos(t, h, comp, k, rel)));
    assert(with.role == comp.role && with.states == comp.states && with.attrs == comp.attrs);
    if all_pseudos(t, h, comp, k, rel) {
        assert(all_pseudos(t, h, with, k, rel));
    } else {
        assert(!all_pseudos(t, h, with, k, rel));
    }
}

proof fn lemma_matching_below(t: TreeV, s: SelectorV, k: int)
    requires
        0 <= k <= usize::MAX,
    ensures
        forall|i: int| 0 <= i < matching_below(t, s, k).len() ==> {
            let x = #[trigger] matching_below(t, s, k)[i] as int;
            0 <= x < k && has_node(t, x) && selector_matches(t, x, s, None)
        },
        forall|i: int, j: int| 0 <= i < j < matching_below(t, s, k).len()
            ==> #[trigger] matching_below(t, s, k)[i] < #[trigger] matching_below(t, s, k)[j],
        forall|x: int| 0 <= x < k && has_node(t, x) && selector_matches(t, x, s, None)
            ==> #[trigger] matching_below(t, s, k).contains(x as NodeHandle),
    decreases k,
{
    if k > 0 {
        lemma_matching_below(t, s, k - 1);
        let prev = matching_below(t, s, k - 1);
        let cur = matching_below(t, s, k);
        if has_node(t, k - 1) && selector_matches(t, k - 1, s, None) {
            assert(cur == prev.push((k - 1) as NodeHandle));
            assert forall|x: int| 0 <= x < k && has_node(t, x) && selector_matches(t, x, s, None)
                implies #[trigger] cur.contains(x as NodeHandle) by {
                if x < k - 1 {
                    assert(prev.contains(x as NodeHandle));
                    let i = choose|i: int| 0 <= i < prev.len() && prev[i] == x as NodeHandle;
                    assert(cur[i] == prev[i]);
                } else {
                    assert(cur[prev.len() as int] == x as NodeHandle);
                }
            }
            assert forall|i: int| 0 <= i < cur.len() implies {
                let x = #[trigger] cur[i] as int;
                0 <= x < k && has_node(t, x) && selector_matches(t, x, s, None)
            } by {
                if i < prev.len() {
                    assert(cur[i] == prev[i]);
                }
            }
            assert forall|i: int, j: int| 0 <= i < j < cur.len() implies #[trigger] cur[i] < #[trigger] cur[j] by {
                if j < prev.len() {
                    assert(cur[i] == prev[i] && cur[j] == prev[j]);
                } else {
                    assert(cur[i] == prev[i]);
                    assert(0 <= prev[i] < k - 1);
                }
            }
        }
    }
}

/// The nodes that a selector finds are exactly the nodes of the tree that match it,
/// each once, in increasing order of handles.
pub proof fn law_matching_exact(t: TreeV, s: SelectorV)
    requires
        t.len() <= usize::MAX,
    ensures
        forall|i: int| 0 <= i < matching(t, s).len() ==> {
            let x = #[trigger] matching(t, s)[i] as int;
            has_node(t, x) && selector_matches(t, x, s, None)
        },
        forall|i: int, j: int| 0 <= i < j < matching(t, s).len() ==> #[trigger] matching(t, s)[i] < #[trigger] matching(t, s)[j],
        forall|x: int| has_node(t, x) && selector_matches(t, x, s, None) ==> #[trigger] matching(t, s).contains(x as NodeHandle),
{
    lemma_matching_below(t, s, t.len() as int);
}

// ---------------------------------------------------------------------------
// What the attribute tests compare

/// Each integer comparison means what its symbol says, and the six fit together:
/// `<=` is `<` or `==`, `>=` is `<=` with the sides swapped, `!=` and `>` are the
/// negations of `==` and `<=`, and `<` is `>` with the sides swapped.
pub proof fn law_int_ops(a: int, b: int)
    ensures
        int_op_holds(a, IntOp::Eq, b) <==> a == b,
        int_op_holds(a, IntOp::Ne, b) <==> a != b,
        int_op_holds(a, IntOp::Le, b) <==> a <= b,
        int_op_holds(a, IntOp::Ge, b) <==> a >= b,
        int_op_holds(a, IntOp::Lt, b) <==> a < b,
        int_op_holds(a, IntOp::Gt, b) <==> a > b,
        int_op_holds(a, IntOp::Le, b) <==> (int_op_holds(a, IntOp::Lt, b) || int_op_holds(a, IntOp::Eq, b)),
        int_op_holds(a, IntOp::Ge, b) <==> int_op_holds(b, IntOp::Le, a),
        int_op_holds(a, IntOp::Lt, b) <==> int_op_holds(b, IntOp::Gt, a),
        int_op_holds(a, IntOp::Ne, b) <==> !int_op_holds(a, IntOp::Eq, b),
        int_op_holds(a, IntOp::Gt, b) <==> !int_op_holds(a, IntOp::Le, b),
        int_op_holds(a, IntOp::Eq, a) && int_op_holds(a, IntOp::Le, a) && int_op_holds(a, IntOp::Ge, a),
{
}

/// An integer attribute test compares the node's field of that name with the
/// target: `x`, `y`, `width`, `height`, the child count and the depth, in that
/// order; a test without a target holds of no node.
pub proof fn law_int_attr_fields(n: NodeV, op: IntOp, v: i32)
    ensures
        attr_holds(n, AttrV::Int { name: IntAttrName::X, op, value: Some(v) }) == int_op_holds(n.x as int, op, v as int),
        attr_holds(n, AttrV::Int { name: IntAttrName::Y, op, value: Some(v) }) == int_op_holds(n.y as int, op, v as int),
        attr_holds(n, AttrV::Int { name: IntAttrName::Width, op, value: Some(v) }) == int_op_holds(n.width as int, op, v as int),
        attr_holds(n, AttrV::Int { name: IntAttrName::Height, op, value: Some(v) }) == int_op_holds(n.height as int, op, v as int),
        attr_holds(n, AttrV::Int { name: IntAttrName::ChildrenCount, op, value: Some(v) })
            == int_op_holds(n.children_count as int, op, v as int),
        attr_holds(n, AttrV::Int { name: IntAttrName::Depth, op, value: Some(v) }) == int_op_holds(n.depth as int, op, v as int),
        forall|name: IntAttrName| !#[trigger] attr_holds(n, AttrV::Int { name, op, value: None }),
{
}

/// A boolean attribute test reads the node's flag of that name; a string attribute
/// test reads the node's field of that name (lists joined by spaces).
pub proof fn law_named_attr_fields(n: NodeV)
    ensures
        attr_holds(n, AttrV::Bool { name: BoolAttrName::AccessibleAction }) == n.accessible_action,
        attr_holds(n, AttrV::Bool { name: BoolAttrName::AccessibleText }) == n.accessible_text,
        attr_holds(n, AttrV::Bool { name: BoolAttrName::AccessibleSelection }) == n.accessible_selection,
        string_attr(n, StrAttrName::Name) == n.name,
        string_attr(n, StrAttrName::Description) == n.description,
        string_attr(n, StrAttrName::Text) == n.text,
        string_attr(n, StrAttrName::States) == join_space(n.states),
        string_attr(n, StrAttrName::StatesEnUs) == join_space(n.states_en_us),
        string_attr(n, StrAttrName::Actions) == join_space(n.actions),
{
}

/// A case-sensitive plain string test compares the value with the target by the
/// operator: equal, the target among the space-separated words, a prefix, a suffix,
/// or anywhere inside.
pub proof fn law_plain_string_ops(v: Seq<char>, t: Seq<char>)
    ensures
        ({
            let f = AttrFlags { case_insensitive: false };
            &&& string_op_holds(v, StringOp::Eq, MatcherV::Plain(t), f) <==> v == t
            &&& string_op_holds(v, StringOp::ContainsWord, MatcherV::Plain(t), f) <==> has_word(v, t)
            &&& string_op_holds(v, StringOp::Starts, MatcherV::Plain(t), f) <==> starts_with(v, t)
            &&& string_op_holds(v, StringOp::Ends, MatcherV::Plain(t), f) <==> ends_with(v, t)
            &&& string_op_holds(v, StringOp::Contains, MatcherV::Plain(t), f) <==> contains_seq(v, t)
        }),
{
}

/// What each simple pseudo-class asks of a node: `:scope` that it is the reference
/// element; the state classes that its US-English states hold, or lack, the state;
/// `:nth-child(k)` that it is the k-th child counting from 1; `:nth-last-child(k)`
/// that it is the k-th from the end of its parent's children (a root counts as the
/// only child); `:not(s)` that it does not match `s`.
pub proof fn law_pseudo_classes(t: TreeV, h: int, rel: Option<int>, st: Seq<char>, k: i32, s: SelectorV)
    ensures
        pseudo_matches(t, h, PseudoV::Scope, rel) <==> rel == Some(h),
        pseudo_matches(t, h, PseudoV::RequireState(st), rel) <==> node(t, h).states_en_us.contains(st),
        pseudo_matches(t, h, PseudoV::ExcludeState(st), rel) <==> !node(t, h).states_en_us.contains(st),
        pseudo_matches(t, h, PseudoV::NthChild(k), rel) <==> node(t, h).index_in_parent + 1 == k,
        node(t, h).parent is None ==> (pseudo_matches(t, h, PseudoV::NthLastChild(k), rel) <==> k == 1),
        ({
            let p = node(t, h).parent->0 as int;
            node(t, h).parent is Some && has_node(t, p) ==> (pseudo_matches(t, h, PseudoV::NthLastChild(k), rel)
                <==> node(t, p).children_count - node(t, h).index_in_parent == k)
        }),
        pseudo_matches(t, h, PseudoV::Not(s), rel) <==> !selector_matches(t, h, s, rel),
        pseudo_matches(t, h, PseudoV::RequireState(st), rel) != pseudo_matches(t, h, PseudoV::ExcludeState(st), rel),
{
}

/// A compound with only a role matches the nodes whose role is that role, compared
/// without regard to case; a compound with only a state class matches the nodes
/// that have the state in either list; the empty compound (`*`) matches every node.
pub proof fn law_role_and_states(t: TreeV, h: int, role: Seq<char>, st: Seq<char>, rel: Option<int>)
    ensures
        compound_matches(t, h, CompoundV { role: Some(role), states: seq![], attrs: seq![], pseudo_classes: seq![] }, rel)
            <==> lowercase(node(t, h).role) == lowercase(role),
        compound_matches(t, h, CompoundV { role: None, states: seq![st], attrs: seq![], pseudo_classes: seq![] }, rel)
            <==> (node(t, h).states.contains(st) || node(t, h).states_en_us.contains(st)),
        compound_matches(t, h, CompoundV { role: None, states: seq![], attrs: seq![], pseudo_classes: seq![] }, rel),
{
    let c = CompoundV { role: None, states: seq![st], attrs: seq![], pseudo_classes: seq![] };
    assert(all_pseudos(t, h, c, 0, rel));
    if state_holds(node(t, h), st) {
        assert forall|i: int| 0 <= i < c.states.len() implies state_holds(node(t, h), #[trigger] c.states[i]) by {}
    }
    if compound_matches(t, h, c, rel) {
        assert(state_holds(node(t, h), c.states[0]));
    }
}

/// `a > b` holds of a node that matches `b` and whose parent, in the tree, matches
/// `a`; `a + b` of a node that matches `b` and whose sibling just before it matches
/// `a`.
pub proof fn law_child_and_next_sibling(t: TreeV, h: int, a: CompoundV, b: CompoundV, rel: Option<int>)
    ensures
        ({
            let p = node(t, h).parent->0 as int;
            let i = node(t, h).index_in_parent - 1;
            &&& complex_at(t, h, ComplexV { head: None, body: seq![(a, Combinator::Child)], last: b }, 0, rel) <==> (
                compound_matches(t, h, b, rel) && node(t, h).parent is Some && has_node(t, p)
                    && compound_matches(t, p, a, rel))
            &&& complex_at(t, h, ComplexV { head: None, body: seq![(a, Combinator::NextSibling)], last: b }, 0, rel) <==> (
                compound_matches(t, h, b, rel) && node(t, h).parent is Some && has_node(t, p)
                    && 0 <= i < node(t, p).children.len() && has_node(t, node(t, p).children[i] as int)
                    && compound_matches(t, node(t, p).children[i] as int, a, rel))
        }),
{
    let c1 = ComplexV { head: None, body: seq![(a, Combinator::Child)], last: b };
    let c2 = ComplexV { head: None, body: seq![(a, Combinator::NextSibling)], last: b };
    assert(compound_at(c1, 0) == b && compound_at(c1, 1) == a && link_at(c1, 0) == Some(Combinator::Child));
    assert(link_at(c1, 1) is None);
    assert(compound_at(c2, 0) == b && compound_at(c2, 1) == a && link_at(c2, 0) == Some(Combinator::NextSibling));
    assert(link_at(c2, 1) is None);
    if let Some(p) = node(t, h).parent {
        assert(complex_at(t, p as int, c1, 1, rel) == compound_matches(t, p as int, a, rel));
        let i = node(t, h).index_in_parent - 1;
        if has_node(t, p as int) && 0 <= i < node(t, p as int).children.len() {
            let sib = node(t, p as int).children[i] as int;
            assert(complex_at(t, sib, c2, 1, rel) == compound_matches(t, sib, a, rel));
        }
    }
}

/// `a b` holds of a node that matches `b` and lies below some node matching `a`:
/// its parent, or its parent's parent, in a well-formed tree; and it never holds of
/// a root.
pub proof fn law_descendant_combinator(t: TreeV, h: int, a: CompoundV, b: CompoundV, rel: Option<int>)
    requires
        tree_wf(t),
        has_node(t, h),
    ensures
        ({
            let c = ComplexV { head: None, body: seq![(a, Combinator::Descendant)], last: b };
            let p = node(t, h).parent->0 as int;
            let g = node(t, p).parent->0 as int;
            &&& complex_at(t, h, c, 0, rel) ==> compound_matches(t, h, b, rel) && node(t, h).parent is Some
            &&& (compound_matches(t, h, b, rel) && node(t, h).parent is Some && compound_matches(t, p, a, rel))
                ==> complex_at(t, h, c, 0, rel)
            &&& (compound_matches(t, h, b, rel) && node(t, h).parent is Some && node(t, p).parent is Some
                && compound_matches(t, g, a, rel)) ==> complex_at(t, h, c, 0, rel)
        }),
{
    let c = ComplexV { head: None, body: seq![(a, Combinator::Descendant)], last: b };
    assert(compound_at(c, 0) == b && compound_at(c, 1) == a && link_at(c, 0) == Some(Combinator::Descendant));
    assert(link_at(c, 1) is None);
    let n = node(t, h);
    assert(node_ok(t, h, Set::empty()));
    if let Some(pp) = n.parent {
        let p = pp as int;
        assert(has_node(t, p) && node(t, p).depth + 1 == n.depth);
        assert(node_ok(t, p, Set::empty()));
        assert(complex_at(t, p, c, 1, rel) == compound_matches(t, p, a, rel));
        if let Some(gg) = node(t, p).parent {
            let g = gg as int;
            assert(has_node(t, g) && node(t, g).depth + 1 == node(t, p).depth);
            assert(complex_at(t, g, c, 1, rel) == compound_matches(t, g, a, rel));
            assert(some_ancestor(t, p, c, 0, rel) == (complex_at(t, g, c, 1, rel) || some_ancestor(t, g, c, 0, rel)));
        }
        assert(some_ancestor(t, h, c, 0, rel) == (complex_at(t, p, c, 1, rel) || some_ancestor(t, p, c, 0, rel)));
    } else {
        assert(!some_ancestor(t, h, c, 0, rel));
    }
}

/// One of the first `k` candidates matches the argument of `:has()` when some
/// candidate among them does.
proof fn lemma_some_candidate(t: TreeV, s: SelectorV, cands: Seq<NodeHandle>, k: int, subject: int, j: int)
    requires
        0 <= j < k <= cands.len(),
        has_node(t, cands[j] as int),
        selector_matches(t, cands[j] as int, s, Some(subject)),
    ensures
        some_candidate(t, PseudoV::Has(s), cands, k, subject),
    decreases k,
{
    if j < k - 1 {
        lemma_some_candidate(t, s, cands, k - 1, subject, j);
    }
}

/// `:has(> c)` holds of a node with a child that matches `c`, in a well-formed tree.
pub proof fn law_has_child(t: TreeV, h: int, c: CompoundV, x: NodeHandle, rel: Option<int>)
    requires
        tree_wf(t),
        has_node(t, h),
        node(t, h).children.contains(x),
        compound_matches(t, x as int, c, Some(h)),
    ensures
        pseudo_matches(t, h, PseudoV::Has(SelectorV { alternatives: seq![ComplexV { head: Some(Combinator::Child), body: seq![], last: c }] }), rel),
{
    let cx = ComplexV { head: Some(Combinator::Child), body: seq![], last: c };
    let s = SelectorV { alternatives: seq![cx] };
    assert(!has_sibling_head(s));
    let cands = has_candidates(t, h, s);
    assert(cands == below(t, node(t, h)));
    crate::context_tree::shape::law_below_descendants(t, h);
    assert(cands.contains(x));
    let j = choose|j: int| 0 <= j < cands.len() && cands[j] == x;
    assert(node_ok(t, h, Set::empty()));
    let k = choose|k: int| 0 <= k < node(t, h).children.len() && node(t, h).children[k] == x;
    assert(has_node(t, x as int) && node(t, x as int).parent == Some(h as NodeHandle));
    assert(compound_at(cx, 0) == c && link_at(cx, 0) == Some(Combinator::Child) && link_at(cx, 1) is None);
    assert(complex_at(t, h, cx, 1, Some(h)));
    assert(complex_at(t, x as int, cx, 0, Some(h)));
    assert(any_alternative(t, x as int, s, 0, Some(h)) == false);
    assert(selector_matches(t, x as int, s, Some(h)));
    lemma_some_candidate(t, s, cands, cands.len() as int, h, j);
}

// ---------------------------------------------------------------------------
// `:scope` written before a combinator

/// The compound `:scope`, and nothing else.
pub open spec fn scope_compound() -> CompoundV {
    CompoundV { role: None, states: seq![], attrs: seq![], pseudo_classes: seq![PseudoV::Scope] }
}

/// A complex selector that starts with a combinator, written instead with `:scope`
/// before that combinator (`> c` as `:scope > c`).
pub open spec fn scope_led(c: ComplexV) -> ComplexV {
    ComplexV { head: None, body: c.body.push((scope_compound(), c.head->0)), last: c.last }
}

/// Whether a complex selector starts with a child or a descendant combinator.
pub open spec fn leads_down(c: ComplexV) -> bool {
    c.head == Some(Combinator::Child) || c.head == Some(Combinator::Descendant)
}

/// Each alternative of `s` written with a leading `:scope`.
pub open spec fn scope_led_selector(s: SelectorV) -> SelectorV {
    SelectorV { alternatives: s.alternatives.map_values(|c: ComplexV| scope_led(c)) }
}

proof fn lemma_scope_compound(t: TreeV, h: int, rel: Option<int>)
    ensures
        compound_matches(t, h, scope_compound(), rel) == scope_holds(h, rel),
{
    let comp = scope_compound();
    assert(all_pseudos(t, h, comp, 0, rel));
    assert(all_pseudos(t, h, comp, 1, rel) == pseudo_matches(t, h, PseudoV::Scope, rel));
}

proof fn lemma_scope_led_complex(t: TreeV, h: int, c: ComplexV, k: int, rel: Option<int>)
    requires
        c.head is Some,
        0 <= k <= c.body.len() + 1,
    ensures
        complex_at(t, h, scope_led(c), k, rel) == complex_at(t, h, c, k, rel),
    decreases c.body.len() + 2 - k, 2int, 0int,
{
    let a = scope_led(c);
    if k <= c.body.len() {
        assert(compound_at(a, k) == compound_at(c, k));
    } else {
        assert(compound_at(a, k) == scope_compound());
        lemma_scope_compound(t, h, rel);
    }
    assert(link_at(a, k) == link_at(c, k));
    match link_at(c, k) {
        Some(Combinator::Child) => {
            let n = node(t, h);
            if let Some(p) = n.parent {
                lemma_scope_led_complex(t, p as int, c, k + 1, rel);
            }
        },
        Some(Combinator::Descendant) => {
            lemma_scope_led_ancestor(t, h, c, k, rel);
        },
        Some(Combinator::NextSibling) => {
            let n = node(t, h);
            if let Some(p) = n.parent {
                let i = n.index_in_parent - 1;
                if has_node(t, p as int) && 0 <= i < node(t, p as int).children.len() {
                    lemma_scope_led_complex(t, node(t, p as int).children[i] as int, c, k + 1, rel);
                }
            }
        },
        Some(Combinator::SubsequentSibling) => {
            let n = node(t, h);
            if let Some(p) = n.parent {
                lemma_scope_led_sibling(t, p as int, c, k, rel, n.index_in_parent as int);
            }
        },
        None => {},
    }
}

proof fn lemma_scope_led_ancestor(t: TreeV, cur: int, c: ComplexV, k: int, rel: Option<int>)
    requires
        c.head is Some,
        0 <= k <= c.body.len(),
    ensures
        some_ancestor(t, cur, scope_led(c), k, rel) == some_ancestor(t, cur, c, k, rel),
    decreases c.body.len() + 2 - k, 1int, node(t, cur).depth,
{
    let n = node(t, cur);
    if has_node(t, cur) && n.depth > 0 {
        if let Some(p) = n.parent {
            if has_node(t, p as int) && 0 <= node(t, p as int).depth < n.depth {
                lemma_scope_led_complex(t, p as int, c, k + 1, rel);
                lemma_scope_led_ancestor(t, p as int, c, k, rel);
            }
        }
    }
}

proof fn lemma_scope_led_sibling(t: TreeV, p: int, c: ComplexV, k: int, rel: Option<int>, m: int)
    requires
        c.head is Some,
        0 <= k <= c.body.len(),
    ensures
        some_prev_sibling(t, p, scope_led(c), k, rel, m) == some_prev_sibling(t, p, c, k, rel, m),
    decreases c.body.len() + 2 - k, 1int, m,
{
    if !(m <= 0 || m > i32::MAX) {
        lemma_scope_led_sibling(t, p, c, k, rel, m - 1);
        let kids = node(t, p).children;
        if m - 1 < kids.len() {
            lemma_scope_led_complex(t, kids[m - 1] as int, c, k + 1, rel);
        }
    }
}

proof fn lemma_scope_led_alternatives(t: TreeV, h: int, s: SelectorV, k: int, rel: Option<int>)
    requires
        forall|i: int| 0 <= i < s.alternatives.len() ==> (#[trigger] s.alternatives[i]).head is Some,
    ensures
        any_alternative(t, h, scope_led_selector(s), k, rel) == any_alternative(t, h, s, k, rel),
    decreases k,
{
    if 0 < k <= s.alternatives.len() {
        lemma_scope_led_alternatives(t, h, s, k - 1, rel);
        assert(scope_led_selector(s).alternatives[k - 1] == scope_led(s.alternatives[k - 1]));
        lemma_scope_led_complex(t, h, s.alternatives[k - 1], 0, rel);
    }
}

proof fn lemma_scope_led_candidates(t: TreeV, s: SelectorV, cands: Seq<NodeHandle>, k: int, subject: int)
    requires
        forall|i: int| 0 <= i < s.alternatives.len() ==> (#[trigger] s.alternatives[i]).head is Some,
    ensures
        some_candidate(t, PseudoV::Has(scope_led_selector(s)), cands, k, subject)
            == some_candidate(t, PseudoV::Has(s), cands, k, subject),
    decreases k,
{
    if 0 < k <= cands.len() {
        lemma_scope_led_candidates(t, s, cands, k - 1, subject);
        let a = scope_led_selector(s);
        let x = cands[k - 1] as int;
        lemma_scope_led_alternatives(t, x, s, s.alternatives.len() as int, Some(subject));
        assert(a.alternatives.len() == s.alternatives.len());
        assert(selector_matches(t, x, a, Some(subject)) == selector_matches(t, x, s, Some(subject)));
    }
}

/// Inside `:has()`, `:scope` written before a child or descendant combinator changes
/// nothing: `:has(:scope > c)` holds of a node exactly when `:has(> c)` does, and
/// `:has(:scope c)` exactly when `:has(c)` does, alternative by alternative.
pub proof fn law_has_scope_prefix(t: TreeV, h: int, s: SelectorV, rel: Option<int>)
    requires
        forall|i: int| 0 <= i < s.alternatives.len() ==> leads_down(#[trigger] s.alternatives[i]),
    ensures
        pseudo_matches(t, h, PseudoV::Has(scope_led_selector(s)), rel) == pseudo_matches(t, h, PseudoV::Has(s), rel),
{
    let a = scope_led_selector(s);
    assert forall|i: int| 0 <= i < s.alternatives.len() implies (#[trigger] s.alternatives[i]).head is Some by {
        assert(leads_down(s.alternatives[i]));
    }
    assert(!has_sibling_head(a)) by {
        if has_sibling_head(a) {
            let i = choose|i: int| 0 <= i < a.alternatives.len() && (#[trigger] a.alternatives[i].head matches Some(c)
                && (c == Combinator::NextSibling || c == Combinator::SubsequentSibling));
            assert(a.alternatives[i] == scope_led(s.alternatives[i]));
        }
    }
    assert(!has_sibling_head(s)) by {
        if has_sibling_head(s) {
            let i = choose|i: int| 0 <= i < s.alternatives.len() && (#[trigger] s.alternatives[i].head matches Some(c)
                && (c == Combinator::NextSibling || c == Combinator::SubsequentSibling));
            assert(leads_down(s.alternatives[i]));
        }
    }
    assert(has_candidates(t, h, a) == has_candidates(t, h, s));
    let cands = has_candidates(t, h, s);
    lemma_scope_led_candidates(t, s, cands, cands.len() as int, h);
}

} // verus!
